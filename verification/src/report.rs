//! Column sizing for the rendered report table. Printing itself is I/O and
//! happens outside the library; the widths below are what it aligns by.
use vstd::prelude::*;

use crate::reconcile::Krate;

verus! {

/// Greatest of `acc` and the lengths of all of `cells`.
pub open spec fn max_len_from(cells: Seq<Seq<char>>, acc: nat) -> nat
    decreases cells.len(),
{
    if cells.len() == 0 {
        acc
    } else {
        max_len_from(
            cells.skip(1),
            if cells[0].len() > acc {
                cells[0].len()
            } else {
                acc
            },
        )
    }
}

/// The name column's contents.
pub open spec fn names_of(ks: Seq<Krate>) -> Seq<Seq<char>> {
    ks.map_values(|k: Krate| k@.installed.name)
}

/// The installed-version column's contents.
pub open spec fn versions_of(ks: Seq<Krate>) -> Seq<Seq<char>> {
    ks.map_values(|k: Krate| k@.installed.version)
}

/// The latest-version column's contents.
pub open spec fn latests_of(ks: Seq<Krate>) -> Seq<Seq<char>> {
    ks.map_values(|k: Krate| k@.latest)
}

/// Widths of the name, installed and latest columns: the longest content
/// in each column, its header label included, plus three characters of
/// padding. The header labels are `Name`, `Installed` and `Latest`.
pub fn column_widths(krates: &Vec<Krate>) -> (r: (usize, usize, usize))
    requires
        forall|i: int|
            0 <= i < krates@.len() ==> krates@[i]@.installed.name.len() + 3 <= usize::MAX
                && krates@[i]@.installed.version.len() + 3 <= usize::MAX && krates@[i]@.latest.len()
                + 3 <= usize::MAX,
    ensures
        r.0 == 3 + max_len_from(names_of(krates@), 4),
        r.1 == 3 + max_len_from(versions_of(krates@), 9),
        r.2 == 3 + max_len_from(latests_of(krates@), 6),
{
    let mut name: usize = 4;
    let mut installed: usize = 9;
    let mut latest: usize = 6;
    let mut i: usize = 0;
    proof {
        assert(names_of(krates@).skip(0) =~= names_of(krates@));
        assert(versions_of(krates@).skip(0) =~= versions_of(krates@));
        assert(latests_of(krates@).skip(0) =~= latests_of(krates@));
    }
    while i < krates.len()
        invariant
            i <= krates@.len(),
            name + 3 <= usize::MAX,
            installed + 3 <= usize::MAX,
            latest + 3 <= usize::MAX,
            max_len_from(names_of(krates@), 4) == max_len_from(
                names_of(krates@).skip(i as int),
                name as nat,
            ),
            max_len_from(versions_of(krates@), 9) == max_len_from(
                versions_of(krates@).skip(i as int),
                installed as nat,
            ),
            max_len_from(latests_of(krates@), 6) == max_len_from(
                latests_of(krates@).skip(i as int),
                latest as nat,
            ),
        decreases krates@.len() - i,
    {
        let k = &krates[i];
        proof {
            assert(names_of(krates@).skip(i as int)[0] == krates@[i as int]@.installed.name);
            assert(versions_of(krates@).skip(i as int)[0] == krates@[i as int]@.installed.version);
            assert(latests_of(krates@).skip(i as int)[0] == krates@[i as int]@.latest);
            assert(names_of(krates@).skip(i as int).skip(1) =~= names_of(krates@).skip(i + 1));
            assert(versions_of(krates@).skip(i as int).skip(1) =~= versions_of(krates@).skip(
                i + 1,
            ));
            assert(latests_of(krates@).skip(i as int).skip(1) =~= latests_of(krates@).skip(i + 1));
        }
        let nl = k.installed.name.as_str().unicode_len();
        if nl > name {
            name = nl;
        }
        let vl = k.installed.version.as_str().unicode_len();
        if vl > installed {
            installed = vl;
        }
        let ll = k.latest.as_str().unicode_len();
        if ll > latest {
            latest = ll;
        }
        i = i + 1;
    }
    (name + 3, installed + 3, latest + 3)
}

} // verus!
