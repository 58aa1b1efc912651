//! Synthetic inventory text and the parsing round-trip.
//!
//! `spec_render` writes a sequence of package records in exactly the shape
//! the inventory parser expects; the round-trip law at the bottom proves
//! that parsing such a text recovers the records — names, versions,
//! origins and entry-point lists — without loss, the last record included.
use vstd::prelude::*;

use crate::inventory::{
    is_cont, noncont_pred, spec_parse, spec_parse_header, spec_parse_lines, KrateModel,
};
use crate::text::{
    break_at, is_space, lemma_break_at, lemma_break_at_is, lemma_trim_end_idx_is, spec_lines,
    spec_tokens, spec_trim, strip_leading_v, strip_parens, strip_trailing_colon, nonspace_pred,
    nl_pred, space_pred,
};

verus! {

/// Fields that render into one header token: no line breaks, no whitespace.
pub open spec fn wf_field(s: Seq<char>) -> bool {
    forall|k: int| 0 <= k < s.len() ==> s[k] != '\n' && !is_space(s[k])
}

/// Entry-point texts that survive the parser's trimming: no line breaks
/// and no surrounding whitespace.
pub open spec fn wf_command(c: Seq<char>) -> bool {
    (forall|k: int| 0 <= k < c.len() ==> c[k] != '\n') && (c.len() > 0 ==> !is_space(c[0])
        && !is_space(c[c.len() - 1]))
}

/// A record the renderer can encode losslessly: a nonempty name, plain
/// header fields, and trimmed entry points.
pub open spec fn wf_krate(k: KrateModel) -> bool {
    k.name.len() > 0 && wf_field(k.name) && wf_field(k.version) && (match k.from {
        Some(f) => wf_field(f),
        None => true,
    }) && forall|i: int| 0 <= i < k.commands.len() ==> wf_command(k.commands[i])
}

/// The header line of one record, without its line break.
pub open spec fn render_header(k: KrateModel) -> Seq<char> {
    k.name + " v"@ + k.version + (match k.from {
        Some(f) => " ("@ + f + ")"@,
        None => Seq::empty(),
    }) + ":"@
}

/// One indented continuation line, without its line break.
pub open spec fn render_command(c: Seq<char>) -> Seq<char> {
    "    "@ + c
}

/// All lines of one record: the header, then one line per entry point.
pub open spec fn record_lines(k: KrateModel) -> Seq<Seq<char>> {
    seq![render_header(k)] + k.commands.map_values(|c: Seq<char>| render_command(c))
}

/// All lines of a record sequence, in order.
pub open spec fn inventory_lines(ks: Seq<KrateModel>) -> Seq<Seq<char>>
    decreases ks.len(),
{
    if ks.len() == 0 {
        Seq::empty()
    } else {
        record_lines(ks[0]) + inventory_lines(ks.skip(1))
    }
}

/// Join lines into one text, each line closed by a line break.
pub open spec fn unlines(ls: Seq<Seq<char>>) -> Seq<char>
    decreases ls.len(),
{
    if ls.len() == 0 {
        Seq::empty()
    } else {
        ls[0] + "\n"@ + unlines(ls.skip(1))
    }
}

/// The synthetic inventory text for a record sequence.
pub open spec fn spec_render(ks: Seq<KrateModel>) -> Seq<char> {
    unlines(inventory_lines(ks))
}

/// Splitting a text that ends in a line break distributes over
/// concatenation.
proof fn lemma_lines_append(a: Seq<char>, b: Seq<char>)
    requires
        a.len() > 0,
        a[a.len() - 1] == '\n',
    ensures
        spec_lines(a + b) == spec_lines(a) + spec_lines(b),
    decreases a.len(),
{
    lemma_break_at(a, nl_pred());
    let ba = break_at(a, nl_pred()) as int;
    assert(ba < a.len());
    let s = a + b;
    assert forall|k: int| 0 <= k < ba implies !nl_pred()(s[k]) by {
        assert(s[k] == a[k]);
    }
    assert(s[ba] == a[ba]);
    lemma_break_at_is(s, nl_pred(), ba);
    assert(s.take(ba) =~= a.take(ba));
    assert(s.skip(ba + 1) =~= a.skip(ba + 1) + b);
    let a2 = a.skip(ba + 1);
    if a2.len() == 0 {
        reveal_with_fuel(spec_lines, 3);
        assert(a2 + b =~= b);
        assert(spec_lines(a) =~= seq![a.take(ba)]);
        assert(spec_lines(a + b) =~= seq![a.take(ba)] + spec_lines(b));
        assert(spec_lines(a) + spec_lines(b) =~= seq![a.take(ba)] + spec_lines(b));
    } else {
        assert(a2[a2.len() - 1] == a[a.len() - 1]);
        lemma_lines_append(a2, b);
        assert(spec_lines(a + b) == seq![a.take(ba)] + (spec_lines(a2) + spec_lines(b)));
        assert(spec_lines(a) == seq![a.take(ba)] + spec_lines(a2));
        assert(seq![a.take(ba)] + (spec_lines(a2) + spec_lines(b)) =~= (seq![a.take(ba)]
            + spec_lines(a2)) + spec_lines(b));
    }
}

/// A line without line breaks, closed by one, splits into itself alone.
proof fn lemma_lines_single(l: Seq<char>)
    requires
        forall|k: int| 0 <= k < l.len() ==> l[k] != '\n',
    ensures
        spec_lines(l + "\n"@) == seq![l],
{
    reveal_strlit("\n");
    reveal_with_fuel(spec_lines, 3);
    let s = l + "\n"@;
    assert(s[l.len() as int] == '\n');
    assert forall|k: int| 0 <= k < l.len() implies !nl_pred()(s[k]) by {
        assert(s[k] == l[k]);
    }
    lemma_break_at_is(s, nl_pred(), l.len() as int);
    assert(s.take(l.len() as int) =~= l);
    assert(s.skip(l.len() as int + 1) =~= Seq::<char>::empty());
    assert(spec_lines(s) =~= seq![l]);
}

/// A text without line-break characters.
pub open spec fn no_nl(s: Seq<char>) -> bool {
    forall|k: int| 0 <= k < s.len() ==> s[k] != '\n'
}

/// Lines none of which holds a line break.
pub open spec fn lines_no_nl(ls: Seq<Seq<char>>) -> bool {
    forall|i: int| 0 <= i < ls.len() ==> no_nl(#[trigger] ls[i])
}

proof fn lemma_no_nl_concat(a: Seq<char>, b: Seq<char>)
    requires
        no_nl(a),
        no_nl(b),
    ensures
        no_nl(a + b),
{
    assert forall|k: int| 0 <= k < (a + b).len() implies (a + b)[k] != '\n' by {
        if k < a.len() {
            assert((a + b)[k] == a[k]);
        } else {
            assert((a + b)[k] == b[k - a.len()]);
        }
    }
}

/// Joining lines and splitting again is the identity, for lines without
/// line breaks.
proof fn lemma_lines_unlines(ls: Seq<Seq<char>>)
    requires
        lines_no_nl(ls),
    ensures
        spec_lines(unlines(ls)) == ls,
    decreases ls.len(),
{
    if ls.len() == 0 {
    } else {
        let a = ls[0] + "\n"@;
        reveal_strlit("\n");
        assert(a[a.len() - 1] == '\n');
        assert(unlines(ls) =~= a + unlines(ls.skip(1)));
        lemma_lines_append(a, unlines(ls.skip(1)));
        assert(no_nl(ls[0]));
        lemma_lines_single(ls[0]);
        assert forall|i: int| 0 <= i < ls.skip(1).len() implies no_nl(#[trigger] ls.skip(1)[i]) by {
            assert(ls.skip(1)[i] == ls[i + 1]);
        }
        lemma_lines_unlines(ls.skip(1));
        assert(spec_lines(unlines(ls)) == seq![ls[0]] + ls.skip(1));
        assert(seq![ls[0]] + ls.skip(1) =~= ls);
    }
}

/// Trimming changes nothing on a text without surrounding whitespace.
proof fn lemma_trim_noop(s: Seq<char>)
    requires
        s.len() > 0,
        !is_space(s[0]),
        !is_space(s[s.len() - 1]),
    ensures
        spec_trim(s) == s,
{
    lemma_break_at_is(s, nonspace_pred(), 0);
    assert(s.skip(0) =~= s);
    lemma_trim_end_idx_is(s, s.len() as int);
    assert(s.take(s.len() as int) =~= s);
}

/// One whitespace-free token, followed by nothing or by whitespace,
/// tokenizes to itself before the remainder's tokens.
proof fn lemma_tokens_word(u: Seq<char>, rest: Seq<char>)
    requires
        u.len() > 0,
        forall|k: int| 0 <= k < u.len() ==> !is_space(u[k]),
        rest.len() == 0 || is_space(rest[0]),
    ensures
        spec_tokens(u + rest) == seq![u] + spec_tokens(rest),
{
    let s = u + rest;
    assert(s[0] == u[0]);
    assert forall|k: int| 0 <= k < u.len() implies !space_pred()(s[k]) by {
        assert(s[k] == u[k]);
    }
    if rest.len() > 0 {
        assert(s[u.len() as int] == rest[0]);
    }
    lemma_break_at_is(s, space_pred(), u.len() as int);
    if rest.len() > 0 {
        assert(s.take(u.len() as int) =~= u);
        assert(s.skip(u.len() as int) =~= rest);
    } else {
        reveal_with_fuel(spec_tokens, 2);
        assert(s =~= u);
        assert(spec_tokens(rest) =~= Seq::<Seq<char>>::empty());
        assert(seq![u] + spec_tokens(rest) =~= seq![u]);
    }
}

/// A leading whitespace character drops out of tokenization.
proof fn lemma_tokens_skip_space(s: Seq<char>)
    requires
        s.len() > 0,
        is_space(s[0]),
    ensures
        spec_tokens(s) == spec_tokens(s.skip(1)),
{
}

/// The header of a well-formed record parses back into its fields.
proof fn lemma_header_roundtrip(k: KrateModel)
    requires
        wf_krate(k),
    ensures
        spec_parse_header(render_header(k)) == Some((k.name, k.version, k.from)),
{
    reveal_strlit(" v");
    reveal_strlit("v");
    reveal_strlit(":");
    reveal_strlit(" (");
    reveal_strlit("(");
    reveal_strlit(")");
    let fp = match k.from {
        Some(f) => " ("@ + f + ")"@,
        None => Seq::<char>::empty(),
    };
    let h = render_header(k);
    let body = k.name + (" v"@ + k.version + fp);
    assert(h =~= body + ":"@);
    assert(h[0] == k.name[0]);
    assert(h[h.len() - 1] == ':');
    lemma_trim_noop(h);
    assert(strip_trailing_colon(h) =~= body);
    let tail = " v"@ + k.version + fp;
    assert(tail[0] == ' ');
    lemma_tokens_word(k.name, tail);
    lemma_tokens_skip_space(tail);
    let w2 = "v"@ + k.version;
    assert forall|j: int| 0 <= j < w2.len() implies !is_space(w2[j]) by {
        if j == 0 {
            assert(w2[0] == 'v');
        } else {
            assert(w2[j] == k.version[j - 1]);
        }
    }
    assert(w2[0] == 'v');
    assert(w2.skip(1) =~= k.version);
    match k.from {
        None => {
            assert(tail.skip(1) =~= w2 + Seq::<char>::empty());
            lemma_tokens_word(w2, Seq::<char>::empty());
            reveal_with_fuel(spec_tokens, 2);
            let toks = spec_tokens(strip_trailing_colon(spec_trim(h)));
            assert(toks =~= seq![k.name, w2]);
            assert(strip_leading_v(toks[1]) == k.version);
        },
        Some(f) => {
            let w3 = "("@ + f + ")"@;
            let r3 = " "@ + w3;
            reveal_strlit(" ");
            assert(fp =~= r3);
            assert(tail.skip(1) =~= w2 + r3);
            assert(r3[0] == ' ');
            lemma_tokens_word(w2, r3);
            lemma_tokens_skip_space(r3);
            assert(r3.skip(1) =~= w3 + Seq::<char>::empty());
            assert forall|j: int| 0 <= j < w3.len() implies !is_space(w3[j]) by {
                if j == 0 {
                    assert(w3[0] == '(');
                } else if j == w3.len() - 1 {
                    assert(w3[j] == ')');
                } else {
                    assert(w3[j] == f[j - 1]);
                }
            }
            lemma_tokens_word(w3, Seq::<char>::empty());
            reveal_with_fuel(spec_tokens, 2);
            let toks = spec_tokens(strip_trailing_colon(spec_trim(h)));
            assert(toks =~= seq![k.name, w2, w3]);
            assert(strip_leading_v(toks[1]) == k.version);
            assert(w3[0] == '(');
            let t3 = w3.skip(1);
            assert(t3 =~= f + ")"@);
            assert(t3[t3.len() - 1] == ')');
            assert(t3.take(t3.len() - 1) =~= f);
            assert(strip_parens(toks[2]) == f);
        },
    }
}

/// A rendered continuation line is a continuation and trims back to its
/// entry point.
proof fn lemma_command_line(c: Seq<char>)
    requires
        wf_command(c),
    ensures
        is_cont(render_command(c)),
        spec_trim(render_command(c)) == c,
{
    reveal_strlit("    ");
    let s = "    "@ + c;
    assert(s[0] == ' ');
    assert forall|k: int| 0 <= k < 4 implies !nonspace_pred()(s[k]) by {
        assert(s[k] == "    "@[k]);
    }
    if c.len() > 0 {
        assert(s[4] == c[0]);
        lemma_break_at_is(s, nonspace_pred(), 4);
        let t = s.skip(4);
        assert(t =~= c);
        lemma_trim_end_idx_is(c, c.len() as int);
        assert(c.take(c.len() as int) =~= c);
    } else {
        lemma_break_at_is(s, nonspace_pred(), 4);
        assert(c =~= Seq::<char>::empty());
    }
}

/// The lines of one well-formed record: the header first, continuations
/// after it, none holding a line break, and the header parsing back.
proof fn lemma_record_lines(k: KrateModel)
    requires
        wf_krate(k),
    ensures
        lines_no_nl(record_lines(k)),
        record_lines(k).len() == 1 + k.commands.len(),
        record_lines(k)[0] == render_header(k),
        !is_cont(render_header(k)),
        forall|i: int|
            1 <= i < record_lines(k).len() ==> #[trigger] record_lines(k)[i] == render_command(
                k.commands[i - 1],
            ) && is_cont(record_lines(k)[i]) && spec_trim(record_lines(k)[i]) == k.commands[i - 1],
{
    reveal_strlit(" v");
    reveal_strlit(" (");
    reveal_strlit(")");
    reveal_strlit(":");
    reveal_strlit("    ");
    let h = render_header(k);
    assert(h[0] == k.name[0]);
    let rl = record_lines(k);
    assert(no_nl(" v"@)) by {
        assert(" v"@[0] == ' ');
        assert(" v"@[1] == 'v');
    }
    assert(no_nl(":"@)) by {
        assert(":"@[0] == ':');
    }
    assert(no_nl(k.name));
    assert(no_nl(k.version));
    match k.from {
        Some(f) => {
            assert(no_nl(" ("@)) by {
                assert(" ("@[0] == ' ');
                assert(" ("@[1] == '(');
            }
            assert(no_nl(")"@)) by {
                assert(")"@[0] == ')');
            }
            assert(no_nl(f));
            lemma_no_nl_concat(" ("@, f);
            lemma_no_nl_concat(" ("@ + f, ")"@);
            lemma_no_nl_concat(k.name, " v"@);
            lemma_no_nl_concat(k.name + " v"@, k.version);
            lemma_no_nl_concat(k.name + " v"@ + k.version, " ("@ + f + ")"@);
            lemma_no_nl_concat(k.name + " v"@ + k.version + (" ("@ + f + ")"@), ":"@);
            assert(h =~= k.name + " v"@ + k.version + (" ("@ + f + ")"@) + ":"@);
        },
        None => {
            lemma_no_nl_concat(k.name, " v"@);
            lemma_no_nl_concat(k.name + " v"@, k.version);
            assert(k.name + " v"@ + k.version + Seq::<char>::empty() =~= k.name + " v"@
                + k.version);
            lemma_no_nl_concat(k.name + " v"@ + k.version, ":"@);
            assert(h =~= k.name + " v"@ + k.version + ":"@);
        },
    }
    assert(no_nl(h));
    assert forall|i: int| 1 <= i < rl.len() implies #[trigger] rl[i] == render_command(
        k.commands[i - 1],
    ) && is_cont(rl[i]) && spec_trim(rl[i]) == k.commands[i - 1] by {
        assert(rl[i] == k.commands.map_values(|c: Seq<char>| render_command(c))[i - 1]);
        assert(wf_command(k.commands[i - 1]));
        lemma_command_line(k.commands[i - 1]);
    }
    assert forall|i: int| 0 <= i < rl.len() implies no_nl(#[trigger] rl[i]) by {
        if i == 0 {
            assert(rl[0] == h);
        } else {
            let c = k.commands[i - 1];
            assert(no_nl("    "@)) by {
                assert("    "@[0] == ' ');
                assert("    "@[1] == ' ');
                assert("    "@[2] == ' ');
                assert("    "@[3] == ' ');
            }
            assert(no_nl(c));
            lemma_no_nl_concat("    "@, c);
        }
    }
}

/// Parsing the rendered lines of well-formed records recovers the records.
proof fn lemma_parse_lines_render(ks: Seq<KrateModel>)
    requires
        forall|i: int| 0 <= i < ks.len() ==> wf_krate(#[trigger] ks[i]),
    ensures
        spec_parse_lines(inventory_lines(ks)) == Ok::<Seq<KrateModel>, Seq<char>>(ks),
    decreases ks.len(),
{
    if ks.len() == 0 {
        assert(ks =~= Seq::<KrateModel>::empty());
    } else {
        let k0 = ks[0];
        let rl = record_lines(k0);
        let rest = inventory_lines(ks.skip(1));
        let lines = inventory_lines(ks);
        assert(lines == rl + rest);
        lemma_record_lines(k0);
        assert(lines[0] == rl[0]);
        lemma_header_roundtrip(k0);
        let m = k0.commands.len() as int;
        let u = lines.skip(1);
        assert(u.len() == m + rest.len());
        assert forall|j: int| 0 <= j < m implies !noncont_pred()(u[j]) by {
            assert(u[j] == lines[j + 1]);
            assert(lines[j + 1] == rl[j + 1]);
        }
        if m < u.len() {
            assert(rest.len() > 0);
            assert(ks.skip(1).len() > 0);
            let k1 = ks.skip(1)[0];
            assert(k1 == ks[1]);
            assert(wf_krate(k1));
            lemma_record_lines(k1);
            assert(rest == record_lines(k1) + inventory_lines(ks.skip(1).skip(1)));
            assert(rest[0] == record_lines(k1)[0]);
            assert(u[m] == lines[m + 1]);
            assert(lines[m + 1] == rest[0]);
            assert(noncont_pred()(u[m]));
        }
        lemma_break_at_is(u, noncont_pred(), m);
        assert(u.take(m) =~= rl.skip(1));
        let cmds = u.take(m).map_values(|l: Seq<char>| spec_trim(l));
        assert forall|j: int| 0 <= j < m implies cmds[j] == k0.commands[j] by {
            assert(u.take(m)[j] == rl[j + 1]);
        }
        assert(cmds =~= k0.commands);
        assert(lines.skip(1 + m) =~= rest);
        assert forall|i: int| 0 <= i < ks.skip(1).len() implies wf_krate(
            #[trigger] ks.skip(1)[i],
        ) by {
            assert(ks.skip(1)[i] == ks[i + 1]);
        }
        lemma_parse_lines_render(ks.skip(1));
        let built = KrateModel {
            name: k0.name,
            version: k0.version,
            from: k0.from,
            commands: cmds,
        };
        assert(built == k0);
        assert(seq![k0] + ks.skip(1) =~= ks);
    }
}

/// Parsing round-trip: for any well-formed record sequence, parsing the
/// rendered inventory text recovers exactly those records — names,
/// versions, origins and entry-point lists, the last record included.
pub proof fn lemma_parse_render_roundtrip(ks: Seq<KrateModel>)
    requires
        forall|i: int| 0 <= i < ks.len() ==> wf_krate(#[trigger] ks[i]),
    ensures
        spec_parse(spec_render(ks)) == Ok::<Seq<KrateModel>, Seq<char>>(ks),
{
    lemma_inventory_lines_no_nl(ks);
    lemma_lines_unlines(inventory_lines(ks));
    lemma_parse_lines_render(ks);
}

/// No rendered line of well-formed records holds a line break.
proof fn lemma_inventory_lines_no_nl(ks: Seq<KrateModel>)
    requires
        forall|i: int| 0 <= i < ks.len() ==> wf_krate(#[trigger] ks[i]),
    ensures
        lines_no_nl(inventory_lines(ks)),
    decreases ks.len(),
{
    if ks.len() > 0 {
        lemma_record_lines(ks[0]);
        assert forall|i: int| 0 <= i < ks.skip(1).len() implies wf_krate(
            #[trigger] ks.skip(1)[i],
        ) by {
            assert(ks.skip(1)[i] == ks[i + 1]);
        }
        lemma_inventory_lines_no_nl(ks.skip(1));
        let rl = record_lines(ks[0]);
        let rest = inventory_lines(ks.skip(1));
        assert forall|i: int| 0 <= i < inventory_lines(ks).len() implies no_nl(
            #[trigger] inventory_lines(ks)[i],
        ) by {
            if i < rl.len() {
                assert(inventory_lines(ks)[i] == rl[i]);
            } else {
                assert(inventory_lines(ks)[i] == rest[i - rl.len()]);
            }
        }
    }
}

} // verus!

