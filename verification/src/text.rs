//! Character-level helpers shared by the inventory parser and the version
//! comparison: splitting text into lines, tokens and dot-separated
//! identifiers, and trimming surrounding whitespace.
use vstd::prelude::*;

verus! {

/// Characters treated as horizontal whitespace when trimming and splitting.
pub open spec fn is_space(c: char) -> bool {
    c == ' ' || c == '\t'
}

/// Views of a sequence of owned strings.
pub open spec fn views_of(v: Seq<String>) -> Seq<Seq<char>> {
    v.map_values(|x: String| x@)
}

/// Index of the first element satisfying `p`, or the length if none does.
pub open spec fn break_at<T>(s: Seq<T>, p: spec_fn(T) -> bool) -> nat
    decreases s.len(),
{
    if s.len() == 0 {
        0
    } else if p(s[0]) {
        0
    } else {
        (1 + break_at(s.skip(1), p)) as nat
    }
}

pub proof fn lemma_break_at<T>(s: Seq<T>, p: spec_fn(T) -> bool)
    ensures
        break_at(s, p) <= s.len(),
        forall|k: int| 0 <= k < break_at(s, p) ==> !p(s[k]),
        break_at(s, p) < s.len() ==> p(s[break_at(s, p) as int]),
    decreases s.len(),
{
    if s.len() != 0 && !p(s[0]) {
        lemma_break_at(s.skip(1), p);
        assert forall|k: int| 0 <= k < break_at(s, p) implies !p(s[k]) by {
            if k >= 1 {
                assert(s.skip(1)[k - 1] == s[k]);
            }
        }
        if break_at(s, p) < s.len() {
            assert(s.skip(1)[break_at(s, p) - 1] == s[break_at(s, p) as int]);
        }
    }
}

/// `break_at` is the unique index with nothing satisfying `p` before it and
/// either `p` holding at it or the sequence ending there.
pub proof fn lemma_break_at_is<T>(s: Seq<T>, p: spec_fn(T) -> bool, m: int)
    requires
        0 <= m <= s.len(),
        forall|k: int| 0 <= k < m ==> !p(s[k]),
        m < s.len() ==> p(s[m]),
    ensures
        break_at(s, p) == m,
    decreases s.len(),
{
    if s.len() != 0 && !p(s[0]) {
        assert forall|k: int| 0 <= k < m - 1 implies !p(s.skip(1)[k]) by {
            assert(s.skip(1)[k] == s[k + 1]);
        }
        if m - 1 < s.skip(1).len() {
            assert(s.skip(1)[m - 1] == s[m]);
        }
        lemma_break_at_is(s.skip(1), p, m - 1);
    }
}

/// Stop predicate for line splitting.
pub open spec fn nl_pred() -> spec_fn(char) -> bool {
    |c: char| c == '\n'
}

/// Stop predicate for token splitting.
pub open spec fn space_pred() -> spec_fn(char) -> bool {
    |c: char| is_space(c)
}

/// Stop predicate marking the first non-whitespace character.
pub open spec fn nonspace_pred() -> spec_fn(char) -> bool {
    |c: char| !is_space(c)
}

/// Stop predicate for dot-separated identifier splitting.
pub open spec fn dot_pred() -> spec_fn(char) -> bool {
    |c: char| c == '.'
}

/// The lines of `s`: segments between newline characters, without a final
/// empty segment when `s` ends in a newline (or is empty).
pub open spec fn spec_lines(s: Seq<char>) -> Seq<Seq<char>>
    decreases s.len(),
{
    if s.len() == 0 {
        Seq::empty()
    } else {
        let b = break_at(s, nl_pred());
        if b < s.len() {
            seq![s.take(b as int)] + spec_lines(s.skip(b as int + 1))
        } else {
            seq![s]
        }
    }
}

/// Whitespace-separated tokens of `s`; empty tokens are dropped.
pub open spec fn spec_tokens(s: Seq<char>) -> Seq<Seq<char>>
    decreases s.len(),
{
    if s.len() == 0 {
        Seq::empty()
    } else if is_space(s[0]) {
        spec_tokens(s.skip(1))
    } else {
        let b = break_at(s, space_pred());
        if b < s.len() {
            seq![s.take(b as int)] + spec_tokens(s.skip(b as int))
        } else {
            seq![s]
        }
    }
}

/// Dot-separated segments of `s`; always one more segment than dots.
pub open spec fn spec_dot_ids(s: Seq<char>) -> Seq<Seq<char>>
    decreases s.len(),
{
    let b = break_at(s, dot_pred());
    if b < s.len() {
        seq![s.take(b as int)] + spec_dot_ids(s.skip(b as int + 1))
    } else {
        seq![s]
    }
}

/// Index after which only trailing whitespace follows.
pub open spec fn trim_end_idx(s: Seq<char>) -> nat
    decreases s.len(),
{
    if s.len() == 0 {
        0
    } else if is_space(s[s.len() - 1]) {
        trim_end_idx(s.take(s.len() - 1))
    } else {
        s.len()
    }
}

pub proof fn lemma_trim_end_idx_is(s: Seq<char>, m: int)
    requires
        0 <= m <= s.len(),
        forall|k: int| m <= k < s.len() ==> is_space(s[k]),
        m > 0 ==> !is_space(s[m - 1]),
    ensures
        trim_end_idx(s) == m,
    decreases s.len(),
{
    if s.len() != 0 && is_space(s[s.len() - 1]) {
        lemma_trim_end_idx_is(s.take(s.len() - 1), m);
    }
}

/// `s` without leading and trailing whitespace.
pub open spec fn spec_trim(s: Seq<char>) -> Seq<char> {
    let a = break_at(s, nonspace_pred());
    if a < s.len() {
        let t = s.skip(a as int);
        t.take(trim_end_idx(t) as int)
    } else {
        Seq::empty()
    }
}

/// `s` without one trailing colon, if it has one.
pub open spec fn strip_trailing_colon(s: Seq<char>) -> Seq<char> {
    if s.len() > 0 && s[s.len() - 1] == ':' {
        s.take(s.len() - 1)
    } else {
        s
    }
}

/// `s` without one leading `v`, if it has one.
pub open spec fn strip_leading_v(s: Seq<char>) -> Seq<char> {
    if s.len() > 0 && s[0] == 'v' {
        s.skip(1)
    } else {
        s
    }
}

/// `s` without one surrounding pair of parenthesis characters.
pub open spec fn strip_parens(s: Seq<char>) -> Seq<char> {
    let t = if s.len() > 0 && s[0] == '(' {
        s.skip(1)
    } else {
        s
    };
    if t.len() > 0 && t[t.len() - 1] == ')' {
        t.take(t.len() - 1)
    } else {
        t
    }
}

/// Equality of two owned strings by contents.
pub fn string_eq(a: &String, b: &String) -> (r: bool)
    ensures
        r == (a@ == b@),
{
    a.eq(b)
}

/// Whitespace test on one character.
pub fn is_space_c(c: char) -> (r: bool)
    ensures
        r == is_space(c),
{
    c == ' ' || c == '\t'
}

/// Split `s` into its lines.
pub fn split_lines(s: &str) -> (r: Vec<String>)
    ensures
        views_of(r@) == spec_lines(s@),
{
    let n = s.unicode_len();
    let mut out: Vec<String> = Vec::new();
    let mut start: usize = 0;
    proof {
        assert(s@.skip(0) =~= s@);
        assert(views_of(out@) + spec_lines(s@) =~= spec_lines(s@));
    }
    while start < n
        invariant
            n == s@.len(),
            start <= n,
            views_of(out@) + spec_lines(s@.skip(start as int)) == spec_lines(s@),
        decreases n - start,
    {
        let mut j = start;
        while j < n && s.get_char(j) != '\n'
            invariant
                start <= j <= n,
                forall|k: int| start <= k < j ==> s@[k] != '\n',
            decreases n - j,
        {
            j = j + 1;
        }
        let line = String::from_str(s.substring_char(start, j));
        let ghost prev = out@;
        out.push(line);
        proof {
            let t = s@.skip(start as int);
            assert forall|k: int| 0 <= k < (j - start) implies !nl_pred()(t[k]) by {
                assert(t[k] == s@[start + k]);
            }
            if j < n {
                assert(t[j - start] == s@[j as int]);
            }
            lemma_break_at_is(t, nl_pred(), j - start);
            assert(views_of(out@) =~= views_of(prev).push(s@.subrange(start as int, j as int)));
            if j < n {
                assert(t.take(j - start) =~= s@.subrange(start as int, j as int));
                assert(t.skip(j - start + 1) =~= s@.skip(j + 1));
                assert(spec_lines(t) == seq![s@.subrange(start as int, j as int)] + spec_lines(
                    s@.skip(j + 1),
                ));
                assert(views_of(out@) + spec_lines(s@.skip(j + 1)) =~= views_of(prev)
                    + spec_lines(t));
            } else {
                assert(t =~= s@.subrange(start as int, j as int));
                assert(spec_lines(t) == seq![t]);
                assert(views_of(out@) =~= views_of(prev) + spec_lines(t));
                assert(s@.skip(n as int).len() == 0);
                assert(views_of(out@) + spec_lines(s@.skip(n as int)) =~= views_of(out@));
            }
        }
        start = if j < n {
            j + 1
        } else {
            n
        };
    }
    proof {
        assert(s@.skip(n as int).len() == 0);
        assert(views_of(out@) + spec_lines(s@.skip(n as int)) =~= views_of(out@));
    }
    out
}

/// Split `s` into whitespace-separated tokens, dropping empty ones.
pub fn tokenize(s: &str) -> (r: Vec<String>)
    ensures
        views_of(r@) == spec_tokens(s@),
{
    let n = s.unicode_len();
    let mut out: Vec<String> = Vec::new();
    let mut i: usize = 0;
    proof {
        assert(s@.skip(0) =~= s@);
        assert(views_of(out@) + spec_tokens(s@) =~= spec_tokens(s@));
    }
    while i < n
        invariant
            n == s@.len(),
            i <= n,
            views_of(out@) + spec_tokens(s@.skip(i as int)) == spec_tokens(s@),
        decreases n - i,
    {
        if is_space_c(s.get_char(i)) {
            proof {
                assert(s@.skip(i as int).skip(1) =~= s@.skip(i + 1));
            }
            i = i + 1;
        } else {
            let mut j = i + 1;
            while j < n && !is_space_c(s.get_char(j))
                invariant
                    i < j <= n,
                    forall|k: int| i <= k < j ==> !is_space(s@[k]),
                decreases n - j,
            {
                j = j + 1;
            }
            let tok = String::from_str(s.substring_char(i, j));
            let ghost prev = out@;
            out.push(tok);
            proof {
                let t = s@.skip(i as int);
                assert forall|k: int| 0 <= k < (j - i) implies !space_pred()(t[k]) by {
                    assert(t[k] == s@[i + k]);
                }
                if j < n {
                    assert(t[j - i] == s@[j as int]);
                }
                lemma_break_at_is(t, space_pred(), j - i);
                assert(views_of(out@) =~= views_of(prev).push(s@.subrange(i as int, j as int)));
                if j < n {
                    assert(t.take(j - i) =~= s@.subrange(i as int, j as int));
                    assert(t.skip(j - i) =~= s@.skip(j as int));
                    assert(spec_tokens(t) == seq![s@.subrange(i as int, j as int)] + spec_tokens(
                        s@.skip(j as int),
                    ));
                    assert(views_of(out@) + spec_tokens(s@.skip(j as int)) =~= views_of(prev)
                        + spec_tokens(t));
                } else {
                    assert(t =~= s@.subrange(i as int, j as int));
                    assert(spec_tokens(t) == seq![t]);
                    assert(views_of(out@) =~= views_of(prev) + spec_tokens(t));
                    assert(s@.skip(n as int).len() == 0);
                    assert(views_of(out@) + spec_tokens(s@.skip(n as int)) =~= views_of(out@));
                }
            }
            i = j;
        }
    }
    proof {
        assert(s@.skip(n as int).len() == 0);
        assert(views_of(out@) + spec_tokens(s@.skip(n as int)) =~= views_of(out@));
    }
    out
}

/// Split `s` at dots; one segment more than there are dots.
#[verifier::loop_isolation(true)]
pub fn dot_ids(s: &str) -> (r: Vec<String>)
    ensures
        views_of(r@) == spec_dot_ids(s@),
{
    let n = s.unicode_len();
    let mut out: Vec<String> = Vec::new();
    let mut i: usize = 0;
    proof {
        assert(s@.skip(0) =~= s@);
        assert(views_of(out@) + spec_dot_ids(s@) =~= spec_dot_ids(s@));
    }
    loop
        invariant_except_break
            views_of(out@) + spec_dot_ids(s@.skip(i as int)) == spec_dot_ids(s@),
        invariant
            n == s@.len(),
            i <= n,
        ensures
            views_of(out@) == spec_dot_ids(s@),
        decreases n - i,
    {
        let mut j = i;
        while j < n && s.get_char(j) != '.'
            invariant
                n == s@.len(),
                i <= j <= n,
                forall|k: int| i <= k < j ==> s@[k] != '.',
            decreases n - j,
        {
            j = j + 1;
        }
        let seg = String::from_str(s.substring_char(i, j));
        let ghost prev = out@;
        out.push(seg);
        proof {
            let t = s@.skip(i as int);
            assert forall|k: int| 0 <= k < (j - i) implies !dot_pred()(t[k]) by {
                assert(t[k] == s@[i + k]);
            }
            if j < n {
                assert(t[j - i] == s@[j as int]);
            }
            lemma_break_at_is(t, dot_pred(), j - i);
            assert(views_of(out@) =~= views_of(prev).push(s@.subrange(i as int, j as int)));
            if j < n {
                assert(t.take(j - i) =~= s@.subrange(i as int, j as int));
                assert(t.skip(j - i + 1) =~= s@.skip(j + 1));
                assert(spec_dot_ids(t) == seq![s@.subrange(i as int, j as int)] + spec_dot_ids(
                    s@.skip(j + 1),
                ));
                assert(views_of(out@) + spec_dot_ids(s@.skip(j + 1)) =~= views_of(prev)
                    + spec_dot_ids(t));
            } else {
                assert(t =~= s@.subrange(i as int, j as int));
                assert(spec_dot_ids(t) == seq![t]);
                assert(views_of(out@) =~= views_of(prev) + spec_dot_ids(t));
            }
        }
        if j == n {
            break ;
        }
        i = j + 1;
    }
    out
}

/// Remove leading and trailing whitespace from `s`.
pub fn trim_str(s: &str) -> (r: String)
    ensures
        r@ == spec_trim(s@),
{
    let n = s.unicode_len();
    let mut a: usize = 0;
    while a < n && is_space_c(s.get_char(a))
        invariant
            a <= n,
            n == s@.len(),
            forall|k: int| 0 <= k < a ==> is_space(s@[k]),
        decreases n - a,
    {
        a = a + 1;
    }
    proof {
        lemma_break_at_is(s@, nonspace_pred(), a as int);
    }
    if a == n {
        String::new()
    } else {
        let mut j = n;
        while j > a && is_space_c(s.get_char(j - 1))
            invariant
                a <= j <= n,
                forall|k: int| j <= k < n ==> is_space(s@[k]),
            decreases j,
        {
            j = j - 1;
        }
        proof {
            let t = s@.skip(a as int);
            assert(!is_space(s@[a as int]));
            assert(j > a);
            assert forall|k: int| j - a <= k < t.len() implies is_space(t[k]) by {
                assert(t[k] == s@[a + k]);
            }
            assert(t[j - a - 1] == s@[j - 1]);
            lemma_trim_end_idx_is(t, j - a);
            assert(t.take(j - a) =~= s@.subrange(a as int, j as int));
        }
        String::from_str(s.substring_char(a, j))
    }
}

/// Remove one trailing colon from `s`, if present.
pub fn strip_colon_str(s: &str) -> (r: String)
    ensures
        r@ == strip_trailing_colon(s@),
{
    let n = s.unicode_len();
    if n > 0 && s.get_char(n - 1) == ':' {
        proof {
            assert(s@.take(n - 1) =~= s@.subrange(0, n - 1));
        }
        String::from_str(s.substring_char(0, n - 1))
    } else {
        String::from_str(s)
    }
}

/// Remove one leading `v` from `s`, if present.
pub fn strip_v_str(s: &str) -> (r: String)
    ensures
        r@ == strip_leading_v(s@),
{
    let n = s.unicode_len();
    if n > 0 && s.get_char(0) == 'v' {
        proof {
            assert(s@.skip(1) =~= s@.subrange(1, n as int));
        }
        String::from_str(s.substring_char(1, n))
    } else {
        String::from_str(s)
    }
}

/// Remove one surrounding pair of parenthesis characters from `s`.
pub fn strip_parens_str(s: &str) -> (r: String)
    ensures
        r@ == strip_parens(s@),
{
    let n = s.unicode_len();
    let a: usize = if n > 0 && s.get_char(0) == '(' {
        1
    } else {
        0
    };
    let b: usize = if n > a && s.get_char(n - 1) == ')' {
        n - 1
    } else {
        n
    };
    proof {
        let t = if s@.len() > 0 && s@[0] == '(' {
            s@.skip(1)
        } else {
            s@
        };
        if t.len() > 0 && t[t.len() - 1] == ')' {
            assert(t.take(t.len() - 1) =~= s@.subrange(a as int, b as int));
        } else {
            assert(t =~= s@.subrange(a as int, b as int));
        }
    }
    String::from_str(s.substring_char(a, b))
}

} // verus!
