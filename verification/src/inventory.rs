//! Parsing the package manager's textual inventory into structured records.
//!
//! A record starts with a header line at column zero of the shape
//! `name version (optional-origin):`; every following line that begins with
//! whitespace continues the record and names one installed entry point.
use vstd::prelude::*;

use crate::text::{
    break_at, is_space, is_space_c, lemma_break_at, lemma_break_at_is, spec_lines, spec_tokens,
    spec_trim, split_lines, strip_colon_str, strip_leading_v, strip_parens, strip_parens_str,
    strip_trailing_colon, strip_v_str, tokenize, trim_str, views_of,
};

verus! {

/// One locally installed package as reported by the package manager.
#[derive(Debug)]
pub struct InstalledKrate {
    /// Unique name within one inventory snapshot.
    pub name: String,
    /// Installed version text, with the leading `v` already stripped.
    pub version: String,
    /// Origin descriptor; a filesystem path marks a locally sourced package.
    pub from: Option<String>,
    /// Entry points the package installed; informational only.
    pub commands: Vec<String>,
}

/// Mathematical model of one installed package.
pub struct KrateModel {
    pub name: Seq<char>,
    pub version: Seq<char>,
    pub from: Option<Seq<char>>,
    pub commands: Seq<Seq<char>>,
}

impl View for InstalledKrate {
    type V = KrateModel;

    open spec fn view(&self) -> KrateModel {
        KrateModel {
            name: self.name@,
            version: self.version@,
            from: match self.from {
                Some(f) => Some(f@),
                None => None,
            },
            commands: views_of(self.commands@),
        }
    }
}

/// Copy a vector of owned strings.
fn clone_strings(v: &Vec<String>) -> (r: Vec<String>)
    ensures
        r@ == v@,
{
    let mut r: Vec<String> = Vec::new();
    let mut i: usize = 0;
    while i < v.len()
        invariant
            i <= v@.len(),
            r@ == v@.take(i as int),
        decreases v@.len() - i,
    {
        r.push(v[i].clone());
        proof {
            assert(v@.take(i + 1) =~= v@.take(i as int).push(v@[i as int]));
        }
        i = i + 1;
    }
    proof {
        assert(v@.take(v@.len() as int) =~= v@);
    }
    r
}

impl Clone for InstalledKrate {
    fn clone(&self) -> (r: Self)
        ensures
            r@ == self@,
    {
        InstalledKrate {
            name: self.name.clone(),
            version: self.version.clone(),
            from: match &self.from {
                Some(f) => Some(f.clone()),
                None => None,
            },
            commands: clone_strings(&self.commands),
        }
    }
}

/// Inventory text that does not follow the expected shape; carries the
/// offending line for diagnosis.
#[derive(Debug)]
pub struct ParseError {
    pub line: String,
}

/// A continuation line: one that begins with whitespace.
pub open spec fn is_cont(line: Seq<char>) -> bool {
    line.len() > 0 && is_space(line[0])
}

/// Stop predicate marking the first line that does not continue a record.
pub open spec fn noncont_pred() -> spec_fn(Seq<char>) -> bool {
    |l: Seq<char>| !is_cont(l)
}

/// Continuation test on one line.
pub fn is_cont_str(line: &str) -> (r: bool)
    ensures
        r == is_cont(line@),
{
    line.unicode_len() > 0 && is_space_c(line.get_char(0))
}

/// Header fields read off one line: after trimming whitespace and one
/// trailing colon, the first token is the name, the second the version with
/// one leading `v` stripped, and an optional third token, stripped of
/// surrounding parenthesis characters, the origin. Fewer than two tokens
/// make the line malformed.
pub open spec fn spec_parse_header(line: Seq<char>) -> Option<
    (Seq<char>, Seq<char>, Option<Seq<char>>),
> {
    let toks = spec_tokens(strip_trailing_colon(spec_trim(line)));
    if toks.len() < 2 {
        None
    } else {
        Some(
            (
                toks[0],
                strip_leading_v(toks[1]),
                if toks.len() >= 3 {
                    Some(strip_parens(toks[2]))
                } else {
                    None
                },
            ),
        )
    }
}

/// Parse of a line sequence into package records: each record is one header
/// line followed by its continuation lines, trimmed, as entry points. A
/// malformed header, or a continuation line with no header before it, is
/// the offending line of a parse failure.
pub open spec fn spec_parse_lines(lines: Seq<Seq<char>>) -> Result<Seq<KrateModel>, Seq<char>>
    decreases lines.len(),
    via spec_parse_lines_dec
{
    if lines.len() == 0 {
        Ok(Seq::empty())
    } else if is_cont(lines[0]) {
        Err(lines[0])
    } else {
        match spec_parse_header(lines[0]) {
            None => Err(lines[0]),
            Some(h) => {
                let c = break_at(lines.skip(1), noncont_pred());
                let cmds = lines.skip(1).take(c as int).map_values(|l: Seq<char>| spec_trim(l));
                match spec_parse_lines(lines.skip(1 + c as int)) {
                    Err(e) => Err(e),
                    Ok(rest) => Ok(
                        seq![
                            KrateModel { name: h.0, version: h.1, from: h.2, commands: cmds },
                        ] + rest,
                    ),
                }
            },
        }
    }
}

#[via_fn]
proof fn spec_parse_lines_dec(lines: Seq<Seq<char>>) {
    if lines.len() > 0 {
        lemma_break_at(lines.skip(1), noncont_pred());
    }
}

/// Parse of the full inventory text: its lines, grouped into records.
pub open spec fn spec_parse(s: Seq<char>) -> Result<Seq<KrateModel>, Seq<char>> {
    spec_parse_lines(spec_lines(s))
}

/// Models of a sequence of package records.
pub open spec fn models_of(v: Seq<InstalledKrate>) -> Seq<KrateModel> {
    v.map_values(|k: InstalledKrate| k@)
}

/// Attach an already-parsed remainder to finished records.
pub open spec fn combine_parse(
    done: Seq<KrateModel>,
    rest: Result<Seq<KrateModel>, Seq<char>>,
) -> Result<Seq<KrateModel>, Seq<char>> {
    match rest {
        Ok(r) => Ok(done + r),
        Err(e) => Err(e),
    }
}

/// Read the header fields off one line.
fn parse_header(line: &str) -> (r: Option<(String, String, Option<String>)>)
    ensures
        match r {
            Some(h) => spec_parse_header(line@) == Some(
                (
                    h.0@,
                    h.1@,
                    match h.2 {
                        Some(f) => Some(f@),
                        None => None,
                    },
                ),
            ),
            None => spec_parse_header(line@) is None,
        },
{
    let trimmed = trim_str(line);
    let stripped = strip_colon_str(trimmed.as_str());
    let toks = tokenize(stripped.as_str());
    proof {
        assert(views_of(toks@) == spec_tokens(strip_trailing_colon(spec_trim(line@))));
    }
    if toks.len() < 2 {
        None
    } else {
        let name = toks[0].clone();
        let version = strip_v_str(toks[1].as_str());
        let from = if toks.len() >= 3 {
            Some(strip_parens_str(toks[2].as_str()))
        } else {
            None
        };
        Some((name, version, from))
    }
}

/// Parse the package manager's full inventory listing.
///
/// Succeeds exactly when every record follows the expected shape, and then
/// returns the records in listing order, the last one included; otherwise
/// reports the first offending line.
pub fn get_installed(listing: &str) -> (r: Result<Vec<InstalledKrate>, ParseError>)
    ensures
        match spec_parse(listing@) {
            Ok(ks) => r matches Ok(v) && models_of(v@) == ks,
            Err(line) => r matches Err(e) && e.line@ == line,
        },
{
    let lines = split_lines(listing);
    let ghost ls = views_of(lines@);
    let mut out: Vec<InstalledKrate> = Vec::new();
    let mut i: usize = 0;
    proof {
        assert(ls.skip(0) =~= ls);
        match spec_parse_lines(ls) {
            Ok(r) => {
                assert(models_of(out@) + r =~= r);
            },
            Err(_) => {},
        }
    }
    while i < lines.len()
        invariant
            i <= lines@.len(),
            ls == views_of(lines@),
            ls == spec_lines(listing@),
            spec_parse_lines(ls) == combine_parse(
                models_of(out@),
                spec_parse_lines(ls.skip(i as int)),
            ),
        decreases lines@.len() - i,
    {
        let line = &lines[i];
        proof {
            assert(line@ == ls[i as int]);
            assert(ls.skip(i as int)[0] == ls[i as int]);
        }
        if is_cont_str(line.as_str()) {
            return Err(ParseError { line: line.clone() });
        }
        match parse_header(line.as_str()) {
            None => {
                return Err(ParseError { line: line.clone() });
            },
            Some(h) => {
                let mut cmds: Vec<String> = Vec::new();
                let mut j = i + 1;
                while j < lines.len() && is_cont_str(lines[j].as_str())
                    invariant
                        i + 1 <= j <= lines@.len(),
                        forall|k: int| i + 1 <= k < j ==> is_cont(ls[k]),
                        views_of(cmds@) == ls.subrange(i + 1, j as int).map_values(
                            |l: Seq<char>| spec_trim(l),
                        ),
                    decreases lines@.len() - j,
                {
                    let cmd = trim_str(lines[j].as_str());
                    let ghost prev_cmds = cmds@;
                    cmds.push(cmd);
                    proof {
                        assert(ls.subrange(i + 1, j + 1) =~= ls.subrange(i + 1, j as int).push(
                            ls[j as int],
                        ));
                        assert(views_of(cmds@) =~= views_of(prev_cmds).push(spec_trim(
                            ls[j as int],
                        )));
                        assert(ls.subrange(i + 1, j + 1).map_values(|l: Seq<char>| spec_trim(l))
                            =~= ls.subrange(i + 1, j as int).map_values(
                            |l: Seq<char>| spec_trim(l),
                        ).push(spec_trim(ls[j as int])));
                    }
                    j = j + 1;
                }
                let krate = InstalledKrate {
                    name: h.0,
                    version: h.1,
                    from: h.2,
                    commands: cmds,
                };
                let ghost prev = out@;
                out.push(krate);
                proof {
                    let t = ls.skip(i as int);
                    let u = ls.skip(i + 1);
                    assert(t.skip(1) =~= u);
                    assert forall|k: int| 0 <= k < (j - i - 1) implies !noncont_pred()(u[k]) by {
                        assert(u[k] == ls[i + 1 + k]);
                    }
                    if j < lines@.len() {
                        assert(u[j - i - 1] == ls[j as int]);
                    }
                    lemma_break_at_is(u, noncont_pred(), j - i - 1);
                    assert(u.take(j - i - 1) =~= ls.subrange(i + 1, j as int));
                    assert(t.skip(1 + (j - i - 1)) =~= ls.skip(j as int));
                    assert(models_of(out@) =~= models_of(prev).push(out@.last()@));
                    match spec_parse_lines(ls.skip(j as int)) {
                        Ok(rest) => {
                            assert(models_of(prev).push(out@.last()@) + rest =~= models_of(prev)
                                + (seq![out@.last()@] + rest));
                        },
                        Err(_) => {},
                    }
                }
                i = j;
            },
        }
    }
    proof {
        assert(ls.skip(ls.len() as int).len() == 0);
        assert(models_of(out@) + Seq::<KrateModel>::empty() =~= models_of(out@));
    }
    Ok(out)
}

} // verus!
