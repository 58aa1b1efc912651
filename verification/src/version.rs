//! Semantic-version precedence.
//!
//! A version is modelled as its three numeric components plus the
//! pre-release text; the outside parser validates and decomposes the
//! textual form, while the precedence order itself is defined and computed
//! here. Build metadata never takes part in precedence.
use vstd::prelude::*;

use crate::text::{dot_ids, spec_dot_ids, string_eq, views_of};

verus! {

/// A decimal digit.
pub open spec fn is_digit(c: char) -> bool {
    48 <= c as u32 <= 57
}

/// A numeric identifier: one or more digits and nothing else.
pub open spec fn is_digits(s: Seq<char>) -> bool {
    s.len() > 0 && forall|k: int| 0 <= k < s.len() ==> is_digit(s[k])
}

/// Strict lexicographic order on character sequences, by scalar value.
pub open spec fn lex_lt(a: Seq<char>, b: Seq<char>) -> bool
    decreases a.len(),
{
    if b.len() == 0 {
        false
    } else if a.len() == 0 {
        true
    } else if a[0] != b[0] {
        (a[0] as u32) < (b[0] as u32)
    } else {
        lex_lt(a.skip(1), b.skip(1))
    }
}

/// Strict order on two pre-release identifiers: numeric identifiers rank
/// below alphanumeric ones and compare numerically among themselves (for
/// digit strings without leading zeros that is length first, then
/// lexicographic); alphanumeric identifiers compare lexicographically.
pub open spec fn id_lt(a: Seq<char>, b: Seq<char>) -> bool {
    if is_digits(a) && is_digits(b) {
        a.len() < b.len() || (a.len() == b.len() && lex_lt(a, b))
    } else if is_digits(a) {
        true
    } else if is_digits(b) {
        false
    } else {
        lex_lt(a, b)
    }
}

/// Strict order on identifier sequences: first differing identifier
/// decides; a strict prefix ranks below the longer sequence.
pub open spec fn ids_lt(a: Seq<Seq<char>>, b: Seq<Seq<char>>) -> bool
    decreases a.len(),
{
    if b.len() == 0 {
        false
    } else if a.len() == 0 {
        true
    } else if a[0] == b[0] {
        ids_lt(a.skip(1), b.skip(1))
    } else {
        id_lt(a[0], b[0])
    }
}

/// Strict order on pre-release texts: any pre-release ranks below the
/// empty text (the release), and two pre-releases compare by their
/// dot-separated identifiers.
pub open spec fn pre_lt(a: Seq<char>, b: Seq<char>) -> bool {
    if b.len() == 0 {
        a.len() > 0
    } else if a.len() == 0 {
        false
    } else {
        ids_lt(spec_dot_ids(a), spec_dot_ids(b))
    }
}

/// Semantic-version precedence on (major, minor, patch, pre-release).
pub open spec fn version_lt(a: (u64, u64, u64, Seq<char>), b: (u64, u64, u64, Seq<char>)) -> bool {
    a.0 < b.0 || (a.0 == b.0 && (a.1 < b.1 || (a.1 == b.1 && (a.2 < b.2 || (a.2 == b.2 && pre_lt(
        a.3,
        b.3,
    ))))))
}

/// The model of one decomposed version value.
pub open spec fn parts_view(p: (u64, u64, u64, String)) -> (u64, u64, u64, Seq<char>) {
    (p.0, p.1, p.2, p.3@)
}

pub proof fn lemma_ids_lt_irrefl(a: Seq<Seq<char>>)
    ensures
        !ids_lt(a, a),
    decreases a.len(),
{
    if a.len() > 0 {
        lemma_ids_lt_irrefl(a.skip(1));
    }
}

/// Precedence is strict: no version ranks below itself.
pub proof fn lemma_version_lt_irrefl(a: (u64, u64, u64, Seq<char>))
    ensures
        !version_lt(a, a),
{
    if a.3.len() > 0 {
        lemma_ids_lt_irrefl(spec_dot_ids(a.3));
    }
}

/// What `semver::Version::parse` decomposes a version text into, when it
/// accepts the text at all.
pub uninterp spec fn semver_parts(s: Seq<char>) -> Option<(u64, u64, u64, Seq<char>)>;

/// Relies on `semver::Version::parse`: acceptance and the parsed major,
/// minor, patch and pre-release depend on the text alone; the call returns
/// instead of panicking for every input.
#[verifier::external_body]
pub(crate) fn parse_semver(s: &str) -> (r: Option<(u64, u64, u64, String)>)
    ensures
        match r {
            Some(p) => semver_parts(s@) == Some((p.0, p.1, p.2, p.3@)),
            None => semver_parts(s@) is None,
        },
{
    match semver::Version::parse(s) {
        Ok(v) => Some((v.major, v.minor, v.patch, String::from(v.pre.as_str()))),
        Err(_) => None,
    }
}

/// Numeric-identifier test.
pub fn is_digits_str(s: &str) -> (r: bool)
    ensures
        r == is_digits(s@),
{
    let n = s.unicode_len();
    if n == 0 {
        return false;
    }
    let mut i: usize = 0;
    while i < n
        invariant
            i <= n,
            n == s@.len(),
            forall|k: int| 0 <= k < i ==> is_digit(s@[k]),
        decreases n - i,
    {
        let u = s.get_char(i) as u32;
        if u < 48 || u > 57 {
            return false;
        }
        i = i + 1;
    }
    true
}

/// Lexicographic comparison of two texts.
pub fn lex_lt_str(a: &str, b: &str) -> (r: bool)
    ensures
        r == lex_lt(a@, b@),
{
    let an = a.unicode_len();
    let bn = b.unicode_len();
    let mut i: usize = 0;
    proof {
        assert(a@.skip(0) =~= a@);
        assert(b@.skip(0) =~= b@);
    }
    while i < an && i < bn && a.get_char(i) == b.get_char(i)
        invariant
            i <= an,
            i <= bn,
            an == a@.len(),
            bn == b@.len(),
            lex_lt(a@, b@) == lex_lt(a@.skip(i as int), b@.skip(i as int)),
        decreases an - i,
    {
        proof {
            let x = a@.skip(i as int);
            let y = b@.skip(i as int);
            assert(x[0] == a@[i as int]);
            assert(y[0] == b@[i as int]);
            assert(x.skip(1) =~= a@.skip(i + 1));
            assert(y.skip(1) =~= b@.skip(i + 1));
        }
        i = i + 1;
    }
    proof {
        let x = a@.skip(i as int);
        let y = b@.skip(i as int);
        if i < an && i < bn {
            assert(x[0] == a@[i as int]);
            assert(y[0] == b@[i as int]);
        }
    }
    if i == bn {
        false
    } else if i == an {
        true
    } else {
        (a.get_char(i) as u32) < (b.get_char(i) as u32)
    }
}

/// Comparison of two pre-release identifiers.
pub fn id_lt_str(a: &str, b: &str) -> (r: bool)
    ensures
        r == id_lt(a@, b@),
{
    let da = is_digits_str(a);
    let db = is_digits_str(b);
    if da && db {
        let an = a.unicode_len();
        let bn = b.unicode_len();
        an < bn || (an == bn && lex_lt_str(a, b))
    } else if da {
        true
    } else if db {
        false
    } else {
        lex_lt_str(a, b)
    }
}

/// Comparison of two identifier sequences.
pub fn ids_lt_vec(a: &Vec<String>, b: &Vec<String>) -> (r: bool)
    ensures
        r == ids_lt(views_of(a@), views_of(b@)),
{
    let mut i: usize = 0;
    proof {
        assert(views_of(a@).skip(0) =~= views_of(a@));
        assert(views_of(b@).skip(0) =~= views_of(b@));
    }
    while i < a.len() && i < b.len() && string_eq(&a[i], &b[i])
        invariant
            i <= a@.len(),
            i <= b@.len(),
            ids_lt(views_of(a@), views_of(b@)) == ids_lt(
                views_of(a@).skip(i as int),
                views_of(b@).skip(i as int),
            ),
        decreases a@.len() - i,
    {
        proof {
            let x = views_of(a@).skip(i as int);
            let y = views_of(b@).skip(i as int);
            assert(x[0] == a@[i as int]@);
            assert(y[0] == b@[i as int]@);
            assert(x.skip(1) =~= views_of(a@).skip(i + 1));
            assert(y.skip(1) =~= views_of(b@).skip(i + 1));
        }
        i = i + 1;
    }
    proof {
        let x = views_of(a@).skip(i as int);
        let y = views_of(b@).skip(i as int);
        if i < a@.len() && i < b@.len() {
            assert(x[0] == a@[i as int]@);
            assert(y[0] == b@[i as int]@);
        }
    }
    if i == b.len() {
        false
    } else if i == a.len() {
        true
    } else {
        id_lt_str(a[i].as_str(), b[i].as_str())
    }
}

/// Comparison of two pre-release texts.
pub fn pre_lt_str(a: &str, b: &str) -> (r: bool)
    ensures
        r == pre_lt(a@, b@),
{
    let an = a.unicode_len();
    let bn = b.unicode_len();
    if bn == 0 {
        an > 0
    } else if an == 0 {
        false
    } else {
        let va = dot_ids(a);
        let vb = dot_ids(b);
        ids_lt_vec(&va, &vb)
    }
}

/// Precedence comparison of two decomposed versions.
pub fn version_lt_parts(a: &(u64, u64, u64, String), b: &(u64, u64, u64, String)) -> (r: bool)
    ensures
        r == version_lt(parts_view(*a), parts_view(*b)),
{
    if a.0 != b.0 {
        a.0 < b.0
    } else if a.1 != b.1 {
        a.1 < b.1
    } else if a.2 != b.2 {
        a.2 < b.2
    } else {
        pre_lt_str(a.3.as_str(), b.3.as_str())
    }
}

} // verus!
