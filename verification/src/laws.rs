//! What holds across the reader and the writer of token lines: a token whose
//! fields can stand on the wire is read back, from the line that the writer
//! makes of it, as the same token, with nothing of the line left over.

use vstd::prelude::*;

use crate::emitter::{
    attest_line, attest_wire_fields, bare, challenge_line, challenge_wire_fields, fields_text,
    join, optional_bare, optional_quoted, optional_segment, quoted, render, rendered,
    replay_line, replay_wire_fields, response_line, response_wire_fields, self_line, vouch_line,
    vouch_wire_fields, wire_line, WireField,
};
use crate::agents::agent_link_line;
use crate::file::gate_split;
use crate::kv::{
    kv_lookup, kv_pairs_at, more_pairs, pair_at, pipe_at, quoted_at, required_field, result_field,
    u8_field, value_at, Pair,
};
use crate::text::{
    find_from, has_at, in_class, is_digit, is_ws, lead_ws, lemma_find_exact, lemma_find_from,
    lemma_lead_ws_exact,
    lemma_span_exact, lemma_trail_ws_exact, lemma_u8_text_roundtrip, parse_u8_text, span,
    trail_ws, trim, trim_end, trim_start, u8_text, CharClass, IntErrorKind,
};
use crate::tokens::{
    apply_segment, attest_from_pairs, attest_line_token, challenge_from_pairs,
    challenge_line_token, empty_self, fold_segments, last_index_of, more_segments,
    replay_from_pairs, replay_line_token, response_from_pairs, response_line_token,
    segments_at, self_line_token, tagged_pairs, vouch_from_pairs, vouch_line_token,
    wire_line_token,
};
use crate::types::{
    result_text, AttestResult, AttestTokenModel, ChallengeTokenModel, ReplayFieldsModel,
    ResponseTokenModel, SelfTokenModel, VouchTokenModel, WireTokenModel,
};

verus! {

// ── What can stand on the wire ───────────────────────────────────────────────

pub open spec fn all_in_class(s: Seq<char>, cls: CharClass) -> bool {
    forall|k: int| 0 <= k < s.len() ==> in_class(cls, #[trigger] s[k])
}

/// A field name that the pair grammar reads back unchanged.
pub open spec fn key_ok(k: Seq<char>) -> bool {
    &&& k.len() > 0
    &&& all_in_class(k, CharClass::Key)
    &&& !is_ws(k[0])
    &&& !is_ws(k.last())
}

/// A value that can be written bare: nonempty, on one line, free of `|`, not
/// starting with a quote, and without surrounding whitespace.
pub open spec fn bare_ok(v: Seq<char>) -> bool {
    &&& v.len() > 0
    &&& all_in_class(v, CharClass::Segment)
    &&& v[0] != '"'
    &&& !is_ws(v[0])
    &&& !is_ws(v.last())
}

/// A value that can be written between quotes: free of `"`.
pub open spec fn quoted_ok(v: Seq<char>) -> bool {
    forall|k: int| 0 <= k < v.len() ==> #[trigger] v[k] != '"'
}

pub open spec fn field_ok(f: WireField) -> bool {
    key_ok(f.key) && if f.quoted {
        quoted_ok(f.value)
    } else {
        bare_ok(f.value)
    }
}

pub open spec fn fields_ok(fs: Seq<WireField>) -> bool {
    forall|j: int| 0 <= j < fs.len() ==> field_ok(#[trigger] fs[j])
}

pub open spec fn optional_bare_ok(v: Option<Seq<char>>) -> bool {
    match v {
        Some(x) => bare_ok(x),
        None => true,
    }
}

pub open spec fn optional_quoted_ok(v: Option<Seq<char>>) -> bool {
    match v {
        Some(x) => quoted_ok(x),
        None => true,
    }
}

/// The pairs that the fields stand for.
pub open spec fn pairs_of(fs: Seq<WireField>) -> Seq<Pair> {
    fs.map_values(|f: WireField| (f.key, f.value))
}

// ── Text facts ───────────────────────────────────────────────────────────────

pub proof fn lemma_trim_unchanged(v: Seq<char>)
    requires
        v.len() > 0,
        !is_ws(v[0]),
        !is_ws(v.last()),
    ensures
        trim(v) == v,
{
    lemma_lead_ws_exact(v, 0);
    assert(v.skip(0) =~= v);
    lemma_trail_ws_exact(v, 0);
    assert(v.take(v.len() as int) =~= v);
}

proof fn lemma_trim_trailing_space(v: Seq<char>)
    requires
        v.len() > 0,
        !is_ws(v[0]),
        !is_ws(v.last()),
    ensures
        trim(v.push(' ')) == v,
{
    let w = v.push(' ');
    lemma_lead_ws_exact(w, 0);
    assert(w.skip(0) =~= w);
    assert(is_ws(' '));
    lemma_trail_ws_exact(w, 1);
    assert(w.take(w.len() - 1) =~= v);
}

/// `s[n..]` is `a + b`: then `a` stands at `n` and `b` after it.
pub proof fn lemma_split_tail(s: Seq<char>, n: int, a: Seq<char>, b: Seq<char>)
    requires
        0 <= n <= s.len(),
        s.subrange(n, s.len() as int) == a + b,
    ensures
        has_at(s, n, a),
        s.subrange(n + a.len(), s.len() as int) == b,
        forall|j: int| 0 <= j < a.len() ==> s[n + j] == #[trigger] a[j],
{
    let t = s.subrange(n, s.len() as int);
    assert(t.len() == a.len() + b.len());
    assert forall|j: int| 0 <= j < a.len() implies s[n + j] == #[trigger] a[j] by {
        assert(t[j] == s[n + j]);
        assert((a + b)[j] == a[j]);
    }
    assert(s.subrange(n, n + a.len()) =~= a) by {
        assert forall|j: int| 0 <= j < a.len() implies s.subrange(n, n + a.len())[j] == a[j] by {
            assert(s.subrange(n, n + a.len())[j] == s[n + j]);
            assert(s[n + j] == a[j]);
        }
    }
    assert(s.subrange(n + a.len(), s.len() as int) =~= b) by {
        assert forall|j: int| 0 <= j < b.len() implies s.subrange(n + a.len(), s.len() as int)[j]
            == b[j] by {
            assert(s.subrange(n + a.len(), s.len() as int)[j] == s[n + a.len() + j]);
            assert(t[a.len() + j] == s[n + a.len() + j]);
            assert((a + b)[a.len() + j] == b[j]);
        }
    }
}

pub proof fn lemma_join_front(p: Seq<Seq<char>>, sep: Seq<char>)
    requires
        p.len() >= 2,
    ensures
        join(p, sep) == p[0] + sep + join(p.drop_first(), sep),
    decreases p.len(),
{
    if p.len() == 2 {
        assert(p.drop_last() =~= seq![p[0]]);
        assert(p.drop_first() =~= seq![p[1]]);
        assert(join(p.drop_last(), sep) == p[0]);
        assert(join(p.drop_first(), sep) == p[1]);
        assert(join(p, sep) == join(p.drop_last(), sep) + sep + p.last());
    } else {
        lemma_join_front(p.drop_last(), sep);
        assert(p.drop_last().drop_first() =~= p.drop_first().drop_last());
        assert(p.drop_first().last() == p.last());
        assert(p.drop_last()[0] == p[0]);
        assert(join(p, sep) == join(p.drop_last(), sep) + sep + p.last());
        assert(join(p.drop_first(), sep) == join(p.drop_first().drop_last(), sep) + sep
            + p.drop_first().last());
        assert(p[0] + sep + join(p.drop_last().drop_first(), sep) + sep + p.last() =~= p[0] + sep
            + (join(p.drop_first().drop_last(), sep) + sep + p.drop_first().last()));
    }
}

/// The text of a list of fields, split at its first field.
pub proof fn lemma_fields_text_front(fs: Seq<WireField>)
    requires
        fs.len() >= 1,
    ensures
        fields_text(fs) == render(fs[0]) + if fs.len() == 1 {
            Seq::<char>::empty()
        } else {
            " | "@ + fields_text(fs.drop_first())
        },
{
    let p = rendered(fs);
    assert(p.drop_first() =~= rendered(fs.drop_first()));
    if fs.len() == 1 {
        assert(render(fs[0]) + Seq::<char>::empty() =~= render(fs[0]));
    } else {
        lemma_join_front(p, " | "@);
        assert(render(fs[0]) + " | "@ + fields_text(fs.drop_first()) =~= render(fs[0]) + (" | "@
            + fields_text(fs.drop_first())));
    }
}

// ── One field ────────────────────────────────────────────────────────────────

/// A rendered field followed by the end of the line or by ` | ` reads back as
/// its key and value; a bare value also takes the space before the `|`.
pub proof fn lemma_pair_roundtrip(s: Seq<char>, i: int, f: WireField)
    requires
        field_ok(f),
        0 <= i,
        has_at(s, i, render(f)),
        i + render(f).len() == s.len() || has_at(s, i + render(f).len(), " | "@),
    ensures
        pair_at(s, i) == Some(
            (
                if !f.quoted && i + render(f).len() < s.len() {
                    i + render(f).len() + 1
                } else {
                    i + render(f).len()
                },
                (f.key, f.value),
            ),
        ),
{
    reveal_strlit("=");
    reveal_strlit("\"");
    reveal_strlit(" | ");
    let r = render(f);
    let n = i + r.len();
    let kl = f.key.len() as int;
    assert forall|j: int| 0 <= j < r.len() implies s[i + j] == #[trigger] r[j] by {
        assert(s.subrange(i, n)[j] == r[j]);
    }
    if n < s.len() {
        assert(s.subrange(n, n + 3)[0] == s[n]);
        assert(s.subrange(n, n + 3)[1] == s[n + 1]);
    }
    assert forall|j: int| i <= j < i + kl implies in_class(CharClass::Key, #[trigger] s[j]) by {
        assert(s[i + (j - i)] == r[j - i]);
        assert(r[j - i] == f.key[j - i]);
    }
    assert(s[i + kl] == r[kl]);
    assert(r[kl] == '=');
    lemma_span_exact(s, i, i + kl, CharClass::Key);
    assert(s.subrange(i, i + kl) =~= f.key) by {
        assert forall|j: int| 0 <= j < kl implies s.subrange(i, i + kl)[j] == f.key[j] by {
            assert(s[i + j] == r[j]);
        }
    }
    lemma_trim_unchanged(f.key);
    let v0 = i + kl + 1;
    let vl = f.value.len() as int;
    if f.quoted {
        assert(s[v0] == r[kl + 1]);
        let q = v0 + 1 + vl;
        assert(s[q] == r[kl + 2 + vl]);
        assert forall|j: int| v0 + 1 <= j < q implies !has_at(s, j, seq!['"']) by {
            assert(s[i + (j - i)] == r[j - i]);
            assert(r[j - i] == f.value[j - v0 - 1]);
            assert(s.subrange(j, j + 1)[0] == s[j]);
        }
        assert(s.subrange(q, q + 1) =~= seq!['"']);
        lemma_find_exact(s, v0 + 1, q, seq!['"']);
        assert(s.subrange(v0 + 1, q) =~= f.value) by {
            assert forall|j: int| 0 <= j < vl implies s.subrange(v0 + 1, q)[j] == f.value[j] by {
                assert(s[i + (kl + 2 + j)] == r[kl + 2 + j]);
            }
        }
        assert(quoted_at(s, v0) == Some((q + 1, f.value)));
    } else {
        assert(s[v0] == r[kl + 1]);
        assert(r[kl + 1] == f.value[0]);
        assert(quoted_at(s, v0) is None);
        assert forall|j: int| v0 <= j < n implies in_class(CharClass::Segment, #[trigger] s[j]) by {
            assert(s[i + (j - i)] == r[j - i]);
            assert(r[j - i] == f.value[j - v0]);
        }
        assert(s.subrange(v0, n) =~= f.value) by {
            assert forall|j: int| 0 <= j < vl implies s.subrange(v0, n)[j] == f.value[j] by {
                assert(s[i + (kl + 1 + j)] == r[kl + 1 + j]);
            }
        }
        if n == s.len() {
            lemma_span_exact(s, v0, n, CharClass::Segment);
            lemma_trim_unchanged(f.value);
        } else {
            lemma_span_exact(s, v0, n + 1, CharClass::Segment);
            assert(s.subrange(v0, n + 1) =~= f.value.push(' '));
            lemma_trim_trailing_space(f.value);
        }
        assert(value_at(s, v0) == Some(
            (if n < s.len() { n + 1 } else { n }, f.value),
        ));
    }
}

// ── Lists of fields ──────────────────────────────────────────────────────────

/// After a field that ended at `n` (the reader stopped at `e`), the rest of a
/// rendered list reads back as its pairs, up to the end of the line.
pub proof fn lemma_more_pairs_roundtrip(s: Seq<char>, n: int, e: int, fs: Seq<WireField>)
    requires
        fields_ok(fs),
        0 <= n <= e <= s.len(),
        fs.len() == 0 ==> n == s.len() && e == n,
        fs.len() > 0 ==> s.subrange(n, s.len() as int) == " | "@ + fields_text(fs) && (e == n || e
            == n + 1),
    ensures
        more_pairs(s, e) == (pairs_of(fs), s.len() as int),
    decreases fs.len(),
{
    reveal_strlit(" | ");
    if fs.len() == 0 {
        lemma_span_exact(s, e, e, CharClass::Blank);
        assert(pairs_of(fs) =~= Seq::<Pair>::empty());
    } else {
        let f0 = fs[0];
        let rest = fs.drop_first();
        assert(field_ok(f0));
        lemma_fields_text_front(fs);
        let tail = if fs.len() == 1 {
            Seq::<char>::empty()
        } else {
            " | "@ + fields_text(rest)
        };
        assert(" | "@ + fields_text(fs) =~= " | "@ + (render(f0) + tail));
        lemma_split_tail(s, n, " | "@, render(f0) + tail);
        lemma_split_tail(s, n + 3, render(f0), tail);
        let m = n + 3 + render(f0).len();
        assert((" | "@)[0] == ' ' && (" | "@)[1] == '|' && (" | "@)[2] == ' ');
        assert(s[n + 0] == ' ' && s[n + 1] == '|' && s[n + 2] == ' ');
        // the first character of the field is that of its key, not a blank
        assert(s[n + 3] == render(f0)[0]);
        assert(render(f0)[0] == f0.key[0]);
        assert(is_ws(' ') && is_ws('\t'));
        if e == n {
            lemma_span_exact(s, n, n + 1, CharClass::Blank);
        } else {
            lemma_span_exact(s, n + 1, n + 1, CharClass::Blank);
        }
        lemma_span_exact(s, n + 2, n + 3, CharClass::Blank);
        assert(pipe_at(s, e) == Some(n + 3));
        if fs.len() > 1 {
            lemma_split_tail(s, m, " | "@, fields_text(rest));
        }
        lemma_pair_roundtrip(s, n + 3, f0);
        let e2 = if !f0.quoted && m < s.len() {
            m + 1
        } else {
            m
        };
        assert forall|j: int| 0 <= j < rest.len() implies field_ok(#[trigger] rest[j]) by {
            assert(rest[j] == fs[j + 1]);
        }
        lemma_more_pairs_roundtrip(s, m, e2, rest);
        assert(pairs_of(fs) =~= seq![(f0.key, f0.value)] + pairs_of(rest));
    }
}

/// A rendered, nonempty list of fields that runs to the end of the line reads
/// back as its pairs.
pub proof fn lemma_kv_roundtrip(s: Seq<char>, i: int, fs: Seq<WireField>)
    requires
        fs.len() > 0,
        fields_ok(fs),
        0 <= i <= s.len(),
        s.subrange(i, s.len() as int) == fields_text(fs),
    ensures
        kv_pairs_at(s, i) == Some((pairs_of(fs), s.len() as int)),
{
    reveal_strlit(" | ");
    let f0 = fs[0];
    let rest = fs.drop_first();
    assert(field_ok(f0));
    lemma_fields_text_front(fs);
    let tail = if fs.len() == 1 {
        Seq::<char>::empty()
    } else {
        " | "@ + fields_text(rest)
    };
    lemma_split_tail(s, i, render(f0), tail);
    let m = i + render(f0).len();
    if fs.len() > 1 {
        lemma_split_tail(s, m, " | "@, fields_text(rest));
    }
    lemma_pair_roundtrip(s, i, f0);
    let e2 = if !f0.quoted && m < s.len() {
        m + 1
    } else {
        m
    };
    assert forall|j: int| 0 <= j < rest.len() implies field_ok(#[trigger] rest[j]) by {
        assert(rest[j] == fs[j + 1]);
    }
    lemma_more_pairs_roundtrip(s, m, e2, rest);
    assert(pairs_of(fs) =~= seq![(f0.key, f0.value)] + pairs_of(rest));
}

// ── Lookups in a written list ───────────────────────────────────────────────

/// Looking a key up after appending at most one field.
proof fn lemma_lookup_after(a: Seq<WireField>, b: Seq<WireField>, k: Seq<char>)
    requires
        b.len() <= 1,
    ensures
        kv_lookup(pairs_of(a + b), k) == if b.len() == 1 && b[0].key == k {
            Some(b[0].value)
        } else {
            kv_lookup(pairs_of(a), k)
        },
{
    if b.len() == 0 {
        assert(a + b =~= a);
    } else {
        assert(pairs_of(a + b).drop_last() =~= pairs_of(a));
        assert(pairs_of(a + b).last() == (b[0].key, b[0].value));
    }
}

/// The digits of a `u8` can stand bare.
proof fn lemma_u8_text_ok(n: u8)
    ensures
        bare_ok(u8_text(n)),
{
    lemma_u8_text_roundtrip(n);
    let t = u8_text(n);
    assert forall|k: int| 0 <= k < t.len() implies in_class(CharClass::Segment, #[trigger] t[k]) by {
        assert(is_digit(t[k]));
    }
    assert(is_digit(t[0]));
    assert(is_digit(t.last()));
}

proof fn lemma_result_text(r: AttestResult)
    ensures
        bare_ok(result_text(r)),
        result_text(r) == "PASS"@ <==> r == AttestResult::Pass,
        result_text(r) == "FAIL"@ <==> r == AttestResult::Fail,
{
    reveal_strlit("PASS");
    reveal_strlit("FAIL");
    let t = result_text(r);
    assert(("PASS"@)[0] != ("FAIL"@)[0]);
    assert forall|k: int| 0 <= k < t.len() implies in_class(CharClass::Segment, #[trigger] t[k]) by {
    }
}

proof fn lemma_fields_ok_concat(a: Seq<WireField>, b: Seq<WireField>)
    requires
        fields_ok(a),
        fields_ok(b),
    ensures
        fields_ok(a + b),
{
    assert forall|j: int| 0 <= j < (a + b).len() implies field_ok(#[trigger] (a + b)[j]) by {
        if j < a.len() {
            assert((a + b)[j] == a[j]);
        } else {
            assert((a + b)[j] == b[j - a.len()]);
        }
    }
}

/// The field names that the writers use.
proof fn lemma_keys_ok()
    ensures
        key_ok("topic"@),
        key_ok("version"@),
        key_ok("model"@),
        key_ok("ct-required"@),
        key_ok("ct-claimed"@),
        key_ok("result"@),
        key_ok("proof-system"@),
        key_ok("proof"@),
        key_ok("vk-hash"@),
        key_ok("sig"@),
        key_ok("vouching-for"@),
        key_ok("reason"@),
        key_ok("probe-score"@),
        key_ok("threshold"@),
        key_ok("enforcer"@),
        key_ok("challenge-id"@),
        key_ok("source"@),
        key_ok("prompt"@),
        key_ok("respondent"@),
        key_ok("body"@),
{
    reveal_strlit("topic");
    reveal_strlit("version");
    reveal_strlit("model");
    reveal_strlit("ct-required");
    reveal_strlit("ct-claimed");
    reveal_strlit("result");
    reveal_strlit("proof-system");
    reveal_strlit("proof");
    reveal_strlit("vk-hash");
    reveal_strlit("sig");
    reveal_strlit("vouching-for");
    reveal_strlit("reason");
    reveal_strlit("probe-score");
    reveal_strlit("threshold");
    reveal_strlit("enforcer");
    reveal_strlit("challenge-id");
    reveal_strlit("source");
    reveal_strlit("prompt");
    reveal_strlit("respondent");
    reveal_strlit("body");
}

/// The field names that the writers and readers use.
pub open spec fn wire_keys() -> Seq<Seq<char>> {
    seq![
        "topic"@,
        "version"@,
        "model"@,
        "ct-required"@,
        "ct-claimed"@,
        "result"@,
        "proof-system"@,
        "proof"@,
        "vk-hash"@,
        "sig"@,
        "vouching-for"@,
        "reason"@,
        "probe-score"@,
        "threshold"@,
        "enforcer"@,
        "challenge-id"@,
        "source"@,
        "prompt"@,
        "respondent"@,
        "body"@,
        "response"@,
    ]
}

/// The field names differ from one another.
proof fn lemma_keys_distinct()
    ensures
        forall|i: int, j: int|
            0 <= i < wire_keys().len() && 0 <= j < wire_keys().len() && i != j
                ==> #[trigger] wire_keys()[i] != #[trigger] wire_keys()[j],
        wire_keys().len() == 21,
        wire_keys()[0] == "topic"@,
        wire_keys()[1] == "version"@,
        wire_keys()[2] == "model"@,
        wire_keys()[3] == "ct-required"@,
        wire_keys()[4] == "ct-claimed"@,
        wire_keys()[5] == "result"@,
        wire_keys()[6] == "proof-system"@,
        wire_keys()[7] == "proof"@,
        wire_keys()[8] == "vk-hash"@,
        wire_keys()[9] == "sig"@,
        wire_keys()[10] == "vouching-for"@,
        wire_keys()[11] == "reason"@,
        wire_keys()[12] == "probe-score"@,
        wire_keys()[13] == "threshold"@,
        wire_keys()[14] == "enforcer"@,
        wire_keys()[15] == "challenge-id"@,
        wire_keys()[16] == "source"@,
        wire_keys()[17] == "prompt"@,
        wire_keys()[18] == "respondent"@,
        wire_keys()[19] == "body"@,
        wire_keys()[20] == "response"@,
{
    reveal_strlit("topic");
    reveal_strlit("version");
    reveal_strlit("model");
    reveal_strlit("ct-required");
    reveal_strlit("ct-claimed");
    reveal_strlit("result");
    reveal_strlit("proof-system");
    reveal_strlit("proof");
    reveal_strlit("vk-hash");
    reveal_strlit("sig");
    reveal_strlit("vouching-for");
    reveal_strlit("reason");
    reveal_strlit("probe-score");
    reveal_strlit("threshold");
    reveal_strlit("enforcer");
    reveal_strlit("challenge-id");
    reveal_strlit("source");
    reveal_strlit("prompt");
    reveal_strlit("respondent");
    reveal_strlit("body");
    reveal_strlit("response");
    let keys = wire_keys();
    assert forall|i: int, j: int|
        0 <= i < keys.len() && 0 <= j < keys.len() && i != j implies #[trigger] keys[i]
            != #[trigger] keys[j] by {
        if keys[i].len() == keys[j].len() {
            assert(keys[i][0] != keys[j][0] || keys[i][1] != keys[j][1] || keys[i][2]
                != keys[j][2]);
        }
    }
}

/// The first character of a written field list is not a blank.
proof fn lemma_first_not_blank(fs: Seq<WireField>)
    requires
        fs.len() > 0,
        fields_ok(fs),
    ensures
        fields_text(fs).len() > 0,
        !in_class(CharClass::Blank, fields_text(fs)[0]),
{
    assert(field_ok(fs[0]));
    lemma_fields_text_front(fs);
    assert(is_ws(' ') && is_ws('\t'));
    assert(render(fs[0])[0] == fs[0].key[0]);
    assert(fields_text(fs)[0] == render(fs[0])[0]);
}

/// `header` (the tag and one space) followed by a written field list reads back as the pairs.
proof fn lemma_tagged_roundtrip(tag: Seq<char>, fs: Seq<WireField>)
    requires
        fs.len() > 0,
        fields_ok(fs),
    ensures
        tagged_pairs(tag + " "@ + fields_text(fs), tag) == Some(
            (pairs_of(fs), (tag + " "@ + fields_text(fs)).len() as int),
        ),
{
    reveal_strlit(" ");
    let s = tag + " "@ + fields_text(fs);
    let h = tag.len() + 1int;
    assert(s.subrange(h, s.len() as int) =~= fields_text(fs));
    assert(s.subrange(0, tag.len() as int) =~= tag);
    assert(s[tag.len() as int] == ' ');
    lemma_first_not_blank(fs);
    assert(s[h] == fields_text(fs)[0]);
    lemma_span_exact(s, tag.len() as int, h, CharClass::Blank);
    lemma_kv_roundtrip(s, h, fs);
}

// ── ATTEST ───────────────────────────────────────────────────────────────────

/// An ATTEST token whose free-text fields can all stand bare.
pub open spec fn attest_wire_safe(t: AttestTokenModel) -> bool {
    &&& bare_ok(t.topic)
    &&& bare_ok(t.version)
    &&& bare_ok(t.model)
    &&& optional_bare_ok(t.proof_system)
    &&& optional_bare_ok(t.proof)
    &&& optional_bare_ok(t.vk_hash)
    &&& optional_bare_ok(t.sig)
}

proof fn lemma_attest_fields(t: AttestTokenModel)
    requires
        attest_wire_safe(t),
    ensures
        fields_ok(attest_wire_fields(t)),
        ({
            let kv = pairs_of(attest_wire_fields(t));
            &&& kv_lookup(kv, "topic"@) == Some(t.topic)
            &&& kv_lookup(kv, "version"@) == Some(t.version)
            &&& kv_lookup(kv, "model"@) == Some(t.model)
            &&& kv_lookup(kv, "ct-required"@) == Some(u8_text(t.ct_required))
            &&& kv_lookup(kv, "ct-claimed"@) == Some(u8_text(t.ct_claimed))
            &&& kv_lookup(kv, "result"@) == Some(result_text(t.result))
            &&& kv_lookup(kv, "proof-system"@) == t.proof_system
            &&& kv_lookup(kv, "proof"@) == t.proof
            &&& kv_lookup(kv, "vk-hash"@) == t.vk_hash
            &&& kv_lookup(kv, "sig"@) == t.sig
        }),
{
    lemma_keys_ok();
    lemma_u8_text_ok(t.ct_required);
    lemma_u8_text_ok(t.ct_claimed);
    lemma_result_text(t.result);
    let r = seq![
        bare("topic"@, t.topic),
        bare("version"@, t.version),
        bare("model"@, t.model),
        bare("ct-required"@, u8_text(t.ct_required)),
        bare("ct-claimed"@, u8_text(t.ct_claimed)),
        bare("result"@, result_text(t.result)),
    ];
    let o1 = optional_bare("proof-system"@, t.proof_system);
    let o2 = optional_bare("proof"@, t.proof);
    let o3 = optional_bare("vk-hash"@, t.vk_hash);
    let o4 = optional_bare("sig"@, t.sig);
    assert(fields_ok(r));
    lemma_fields_ok_concat(r, o1);
    lemma_fields_ok_concat(r + o1, o2);
    lemma_fields_ok_concat(r + o1 + o2, o3);
    lemma_fields_ok_concat(r + o1 + o2 + o3, o4);
    assert(attest_wire_fields(t) == r + o1 + o2 + o3 + o4);
    attest_lookups(t);
}

/// What a lookup gives after appending at most one field to a list whose
/// lookup gives `before`.
pub open spec fn lookup_after(o: Seq<WireField>, k: Seq<char>, before: Option<Seq<char>>) -> Option<
    Seq<char>,
> {
    if o.len() == 1 && o[0].key == k {
        Some(o[0].value)
    } else {
        before
    }
}

proof fn lemma_optional_len(k: Seq<char>, v: Option<Seq<char>>)
    ensures
        optional_bare(k, v).len() <= 1,
        optional_quoted(k, v).len() <= 1,
        lookup_after(optional_bare(k, v), k, None) == v,
        lookup_after(optional_quoted(k, v), k, None) == v,
        forall|k2: Seq<char>, b: Option<Seq<char>>|
            k2 != k ==> #[trigger] lookup_after(optional_bare(k, v), k2, b) == b,
        forall|k2: Seq<char>, b: Option<Seq<char>>|
            k2 != k ==> #[trigger] lookup_after(optional_quoted(k, v), k2, b) == b,
{
}

proof fn lemma_lookup_after_eq(a: Seq<WireField>, b: Seq<WireField>, k: Seq<char>)
    requires
        b.len() <= 1,
    ensures
        kv_lookup(pairs_of(a + b), k) == lookup_after(b, k, kv_lookup(pairs_of(a), k)),
{
    lemma_lookup_after(a, b, k);
}

proof fn lemma_lookup_after_all(
    r: Seq<WireField>,
    o1: Seq<WireField>,
    o2: Seq<WireField>,
    o3: Seq<WireField>,
    o4: Seq<WireField>,
    k: Seq<char>,
)
    requires
        o1.len() <= 1,
        o2.len() <= 1,
        o3.len() <= 1,
        o4.len() <= 1,
    ensures
        kv_lookup(pairs_of(r + o1 + o2 + o3 + o4), k) == lookup_after(
            o4,
            k,
            lookup_after(o3, k, lookup_after(o2, k, lookup_after(o1, k, kv_lookup(pairs_of(r), k)))),
        ),
{
    lemma_lookup_after_eq(r, o1, k);
    lemma_lookup_after_eq(r + o1, o2, k);
    lemma_lookup_after_eq(r + o1 + o2, o3, k);
    lemma_lookup_after_eq(r + o1 + o2 + o3, o4, k);
}

/// Looking a key up after pushing one field.
proof fn lemma_lookup_push(a: Seq<WireField>, f: WireField, k: Seq<char>)
    ensures
        kv_lookup(pairs_of(a.push(f)), k) == if f.key == k {
            Some(f.value)
        } else {
            kv_lookup(pairs_of(a), k)
        },
{
    assert(pairs_of(a.push(f)).drop_last() =~= pairs_of(a));
    assert(pairs_of(a.push(f)).last() == (f.key, f.value));
}

/// The lookups in a list of six fields.
proof fn lemma_lookup_six(
    f0: WireField,
    f1: WireField,
    f2: WireField,
    f3: WireField,
    f4: WireField,
    f5: WireField,
    k: Seq<char>,
)
    ensures
        kv_lookup(pairs_of(seq![f0, f1, f2, f3, f4, f5]), k) == if f5.key == k {
            Some(f5.value)
        } else if f4.key == k {
            Some(f4.value)
        } else if f3.key == k {
            Some(f3.value)
        } else if f2.key == k {
            Some(f2.value)
        } else if f1.key == k {
            Some(f1.value)
        } else if f0.key == k {
            Some(f0.value)
        } else {
            None
        },
{
    let e = Seq::<WireField>::empty();
    assert(pairs_of(e) =~= Seq::<Pair>::empty());
    assert(seq![f0] =~= e.push(f0));
    assert(seq![f0, f1] =~= seq![f0].push(f1));
    assert(seq![f0, f1, f2] =~= seq![f0, f1].push(f2));
    assert(seq![f0, f1, f2, f3] =~= seq![f0, f1, f2].push(f3));
    assert(seq![f0, f1, f2, f3, f4] =~= seq![f0, f1, f2, f3].push(f4));
    assert(seq![f0, f1, f2, f3, f4, f5] =~= seq![f0, f1, f2, f3, f4].push(f5));
    lemma_lookup_push(e, f0, k);
    lemma_lookup_push(seq![f0], f1, k);
    lemma_lookup_push(seq![f0, f1], f2, k);
    lemma_lookup_push(seq![f0, f1, f2], f3, k);
    lemma_lookup_push(seq![f0, f1, f2, f3], f4, k);
    lemma_lookup_push(seq![f0, f1, f2, f3, f4], f5, k);
}

proof fn attest_lookups(t: AttestTokenModel)
    ensures
        ({
            let kv = pairs_of(attest_wire_fields(t));
            &&& kv_lookup(kv, "topic"@) == Some(t.topic)
            &&& kv_lookup(kv, "version"@) == Some(t.version)
            &&& kv_lookup(kv, "model"@) == Some(t.model)
            &&& kv_lookup(kv, "ct-required"@) == Some(u8_text(t.ct_required))
            &&& kv_lookup(kv, "ct-claimed"@) == Some(u8_text(t.ct_claimed))
            &&& kv_lookup(kv, "result"@) == Some(result_text(t.result))
            &&& kv_lookup(kv, "proof-system"@) == t.proof_system
            &&& kv_lookup(kv, "proof"@) == t.proof
            &&& kv_lookup(kv, "vk-hash"@) == t.vk_hash
            &&& kv_lookup(kv, "sig"@) == t.sig
        }),
{
    lemma_keys_distinct();
    let w = wire_keys();
    assert(w[0] != w[1] && w[0] != w[2] && w[0] != w[3] && w[0] != w[4] && w[0] != w[5]);
    assert(w[1] != w[2] && w[1] != w[3] && w[1] != w[4] && w[1] != w[5]);
    assert(w[2] != w[3] && w[2] != w[4] && w[2] != w[5]);
    assert(w[3] != w[4] && w[3] != w[5] && w[4] != w[5]);
    assert(w[6] != w[0] && w[6] != w[1] && w[6] != w[2] && w[6] != w[3] && w[6] != w[4] && w[6]
        != w[5] && w[6] != w[7] && w[6] != w[8] && w[6] != w[9]);
    assert(w[7] != w[0] && w[7] != w[1] && w[7] != w[2] && w[7] != w[3] && w[7] != w[4] && w[7]
        != w[5] && w[7] != w[8] && w[7] != w[9]);
    assert(w[8] != w[0] && w[8] != w[1] && w[8] != w[2] && w[8] != w[3] && w[8] != w[4] && w[8]
        != w[5] && w[8] != w[9]);
    assert(w[9] != w[0] && w[9] != w[1] && w[9] != w[2] && w[9] != w[3] && w[9] != w[4] && w[9]
        != w[5]);
    let f0 = bare("topic"@, t.topic);
    let f1 = bare("version"@, t.version);
    let f2 = bare("model"@, t.model);
    let f3 = bare("ct-required"@, u8_text(t.ct_required));
    let f4 = bare("ct-claimed"@, u8_text(t.ct_claimed));
    let f5 = bare("result"@, result_text(t.result));
    let r = seq![f0, f1, f2, f3, f4, f5];
    let o1 = optional_bare("proof-system"@, t.proof_system);
    let o2 = optional_bare("proof"@, t.proof);
    let o3 = optional_bare("vk-hash"@, t.vk_hash);
    let o4 = optional_bare("sig"@, t.sig);
    assert(attest_wire_fields(t) == r + o1 + o2 + o3 + o4);
    lemma_optional_len("proof-system"@, t.proof_system);
    lemma_optional_len("proof"@, t.proof);
    lemma_optional_len("vk-hash"@, t.vk_hash);
    lemma_optional_len("sig"@, t.sig);
    lemma_lookup_after_all(r, o1, o2, o3, o4, "topic"@);
    lemma_lookup_after_all(r, o1, o2, o3, o4, "version"@);
    lemma_lookup_after_all(r, o1, o2, o3, o4, "model"@);
    lemma_lookup_after_all(r, o1, o2, o3, o4, "ct-required"@);
    lemma_lookup_after_all(r, o1, o2, o3, o4, "ct-claimed"@);
    lemma_lookup_after_all(r, o1, o2, o3, o4, "result"@);
    lemma_lookup_after_all(r, o1, o2, o3, o4, "proof-system"@);
    lemma_lookup_after_all(r, o1, o2, o3, o4, "proof"@);
    lemma_lookup_after_all(r, o1, o2, o3, o4, "vk-hash"@);
    lemma_lookup_after_all(r, o1, o2, o3, o4, "sig"@);
    lemma_lookup_six(f0, f1, f2, f3, f4, f5, "topic"@);
    lemma_lookup_six(f0, f1, f2, f3, f4, f5, "version"@);
    lemma_lookup_six(f0, f1, f2, f3, f4, f5, "model"@);
    lemma_lookup_six(f0, f1, f2, f3, f4, f5, "ct-required"@);
    lemma_lookup_six(f0, f1, f2, f3, f4, f5, "ct-claimed"@);
    lemma_lookup_six(f0, f1, f2, f3, f4, f5, "result"@);
    lemma_lookup_six(f0, f1, f2, f3, f4, f5, "proof-system"@);
    lemma_lookup_six(f0, f1, f2, f3, f4, f5, "proof"@);
    lemma_lookup_six(f0, f1, f2, f3, f4, f5, "vk-hash"@);
    lemma_lookup_six(f0, f1, f2, f3, f4, f5, "sig"@);
}

/// The line that `emit_attest` writes for a token whose fields can stand on the
/// wire reads back as that token, to the end of the line.
pub proof fn lemma_attest_roundtrip(t: AttestTokenModel)
    requires
        attest_wire_safe(t),
    ensures
        attest_line_token(attest_line(t)) == Some((attest_line(t).len() as int, t)),
{
    reveal_strlit("MINISKILL-ATTEST: ");
    reveal_strlit("MINISKILL-ATTEST:");
    reveal_strlit(" ");
    let fs = attest_wire_fields(t);
    let tag = "MINISKILL-ATTEST:"@;
    assert("MINISKILL-ATTEST: "@ =~= tag + " "@);
    lemma_attest_fields(t);
    lemma_tagged_roundtrip(tag, fs);
    lemma_u8_text_roundtrip(t.ct_required);
    lemma_u8_text_roundtrip(t.ct_claimed);
    lemma_result_text(t.result);
}

/// The lookups in a list of two fields.
proof fn lemma_lookup_two(f0: WireField, f1: WireField, k: Seq<char>)
    ensures
        kv_lookup(pairs_of(seq![f0, f1]), k) == if f1.key == k {
            Some(f1.value)
        } else if f0.key == k {
            Some(f0.value)
        } else {
            None
        },
{
    let e = Seq::<WireField>::empty();
    assert(pairs_of(e) =~= Seq::<Pair>::empty());
    assert(seq![f0] =~= e.push(f0));
    assert(seq![f0, f1] =~= seq![f0].push(f1));
    lemma_lookup_push(e, f0, k);
    lemma_lookup_push(seq![f0], f1, k);
}

/// The lookups in a list of three fields.
proof fn lemma_lookup_three(f0: WireField, f1: WireField, f2: WireField, k: Seq<char>)
    ensures
        kv_lookup(pairs_of(seq![f0, f1, f2]), k) == if f2.key == k {
            Some(f2.value)
        } else if f1.key == k {
            Some(f1.value)
        } else if f0.key == k {
            Some(f0.value)
        } else {
            None
        },
{
    lemma_lookup_two(f0, f1, k);
    assert(seq![f0, f1, f2] =~= seq![f0, f1].push(f2));
    lemma_lookup_push(seq![f0, f1], f2, k);
}

// ── VOUCH ────────────────────────────────────────────────────────────────────

/// A VOUCH token whose fields can stand on the wire: the reason is written
/// between quotes, the rest bare.
pub open spec fn vouch_wire_safe(t: VouchTokenModel) -> bool {
    &&& bare_ok(t.topic)
    &&& bare_ok(t.version)
    &&& bare_ok(t.vouching_for)
    &&& bare_ok(t.sig)
    &&& optional_quoted_ok(t.reason)
}

proof fn lemma_vouch_fields(t: VouchTokenModel)
    requires
        vouch_wire_safe(t),
    ensures
        fields_ok(vouch_wire_fields(t)),
        vouch_from_pairs(pairs_of(vouch_wire_fields(t))) == Some(t),
{
    lemma_keys_ok();
    lemma_keys_distinct();
    let w = wire_keys();
    let f0 = bare("topic"@, t.topic);
    let f1 = bare("version"@, t.version);
    let f2 = bare("vouching-for"@, t.vouching_for);
    let r = seq![f0, f1, f2];
    let o = optional_quoted("reason"@, t.reason);
    let z = seq![bare("sig"@, t.sig)];
    assert(vouch_wire_fields(t) == r + o + z);
    assert(fields_ok(r));
    assert(fields_ok(z));
    lemma_fields_ok_concat(r, o);
    lemma_fields_ok_concat(r + o, z);
    lemma_optional_len("reason"@, t.reason);
    assert(w[0] != w[1] && w[0] != w[10] && w[1] != w[10] && w[11] != w[0] && w[11] != w[1]
        && w[11] != w[10] && w[9] != w[0] && w[9] != w[1] && w[9] != w[10] && w[9] != w[11]);
    let kv = pairs_of(r + o + z);
    lemma_lookup_after_eq(r, o, "topic"@);
    lemma_lookup_after_eq(r + o, z, "topic"@);
    lemma_lookup_three(f0, f1, f2, "topic"@);
    lemma_lookup_after_eq(r, o, "version"@);
    lemma_lookup_after_eq(r + o, z, "version"@);
    lemma_lookup_three(f0, f1, f2, "version"@);
    lemma_lookup_after_eq(r, o, "vouching-for"@);
    lemma_lookup_after_eq(r + o, z, "vouching-for"@);
    lemma_lookup_three(f0, f1, f2, "vouching-for"@);
    lemma_lookup_after_eq(r, o, "reason"@);
    lemma_lookup_after_eq(r + o, z, "reason"@);
    lemma_lookup_three(f0, f1, f2, "reason"@);
    lemma_lookup_after_eq(r, o, "sig"@);
    lemma_lookup_after_eq(r + o, z, "sig"@);
    lemma_lookup_three(f0, f1, f2, "sig"@);
    assert(kv_lookup(kv, "topic"@) == Some(t.topic));
    assert(kv_lookup(kv, "version"@) == Some(t.version));
    assert(kv_lookup(kv, "vouching-for"@) == Some(t.vouching_for));
    assert(kv_lookup(kv, "reason"@) == t.reason);
    assert(kv_lookup(kv, "sig"@) == Some(t.sig));
}

/// The line that `emit_vouch` writes for a token whose fields can stand on the
/// wire reads back as that token, to the end of the line.
pub proof fn lemma_vouch_roundtrip(t: VouchTokenModel)
    requires
        vouch_wire_safe(t),
    ensures
        vouch_line_token(vouch_line(t)) == Some((vouch_line(t).len() as int, t)),
{
    reveal_strlit("MINISKILL-VOUCH: ");
    reveal_strlit("MINISKILL-VOUCH:");
    reveal_strlit(" ");
    let tag = "MINISKILL-VOUCH:"@;
    assert("MINISKILL-VOUCH: "@ =~= tag + " "@);
    lemma_vouch_fields(t);
    lemma_tagged_roundtrip(tag, vouch_wire_fields(t));
}

// ── REPLAY ───────────────────────────────────────────────────────────────────

/// REPLAY fields that can stand bare on the wire.
pub open spec fn replay_wire_safe(t: ReplayFieldsModel) -> bool {
    &&& bare_ok(t.topic)
    &&& optional_bare_ok(t.probe_score)
    &&& optional_bare_ok(t.threshold)
    &&& optional_bare_ok(t.enforcer)
}

proof fn lemma_replay_fields(t: ReplayFieldsModel)
    requires
        replay_wire_safe(t),
    ensures
        fields_ok(replay_wire_fields(t)),
        replay_from_pairs(pairs_of(replay_wire_fields(t))) == Some(t),
{
    lemma_keys_ok();
    lemma_keys_distinct();
    lemma_u8_text_ok(t.ct_required);
    lemma_u8_text_ok(t.ct_claimed);
    lemma_u8_text_roundtrip(t.ct_required);
    lemma_u8_text_roundtrip(t.ct_claimed);
    lemma_result_text(t.result);
    let w = wire_keys();
    let f0 = bare("topic"@, t.topic);
    let f1 = bare("ct-required"@, u8_text(t.ct_required));
    let f2 = bare("ct-claimed"@, u8_text(t.ct_claimed));
    let r = seq![f0, f1, f2];
    let o1 = optional_bare("probe-score"@, t.probe_score);
    let o2 = optional_bare("threshold"@, t.threshold);
    let z = seq![bare("result"@, result_text(t.result))];
    let o3 = optional_bare("enforcer"@, t.enforcer);
    assert(replay_wire_fields(t) == r + o1 + o2 + z + o3);
    assert(fields_ok(r));
    assert(fields_ok(z));
    lemma_fields_ok_concat(r, o1);
    lemma_fields_ok_concat(r + o1, o2);
    lemma_fields_ok_concat(r + o1 + o2, z);
    lemma_fields_ok_concat(r + o1 + o2 + z, o3);
    lemma_optional_len("probe-score"@, t.probe_score);
    lemma_optional_len("threshold"@, t.threshold);
    lemma_optional_len("enforcer"@, t.enforcer);
    assert(w[0] != w[3] && w[0] != w[4] && w[3] != w[4]);
    assert(w[12] != w[0] && w[12] != w[3] && w[12] != w[4] && w[12] != w[5] && w[12] != w[13]
        && w[12] != w[14]);
    assert(w[13] != w[0] && w[13] != w[3] && w[13] != w[4] && w[13] != w[5] && w[13] != w[14]);
    assert(w[5] != w[0] && w[5] != w[3] && w[5] != w[4] && w[5] != w[14]);
    assert(w[14] != w[0] && w[14] != w[3] && w[14] != w[4]);
    let kv = pairs_of(r + o1 + o2 + z + o3);
    lemma_lookup_after_all(r, o1, o2, z, o3, "topic"@);
    lemma_lookup_three(f0, f1, f2, "topic"@);
    lemma_lookup_after_all(r, o1, o2, z, o3, "ct-required"@);
    lemma_lookup_three(f0, f1, f2, "ct-required"@);
    lemma_lookup_after_all(r, o1, o2, z, o3, "ct-claimed"@);
    lemma_lookup_three(f0, f1, f2, "ct-claimed"@);
    lemma_lookup_after_all(r, o1, o2, z, o3, "probe-score"@);
    lemma_lookup_three(f0, f1, f2, "probe-score"@);
    lemma_lookup_after_all(r, o1, o2, z, o3, "threshold"@);
    lemma_lookup_three(f0, f1, f2, "threshold"@);
    lemma_lookup_after_all(r, o1, o2, z, o3, "result"@);
    lemma_lookup_three(f0, f1, f2, "result"@);
    lemma_lookup_after_all(r, o1, o2, z, o3, "enforcer"@);
    lemma_lookup_three(f0, f1, f2, "enforcer"@);
    assert(kv_lookup(kv, "topic"@) == Some(t.topic));
    assert(kv_lookup(kv, "ct-required"@) == Some(u8_text(t.ct_required)));
    assert(kv_lookup(kv, "ct-claimed"@) == Some(u8_text(t.ct_claimed)));
    assert(kv_lookup(kv, "probe-score"@) == t.probe_score);
    assert(kv_lookup(kv, "threshold"@) == t.threshold);
    assert(kv_lookup(kv, "result"@) == Some(result_text(t.result)));
    assert(kv_lookup(kv, "enforcer"@) == t.enforcer);
}

/// The line that `emit_replay_fields` writes for fields that can stand on the
/// wire reads back as those fields, to the end of the line.
pub proof fn lemma_replay_roundtrip(t: ReplayFieldsModel)
    requires
        replay_wire_safe(t),
    ensures
        replay_line_token(replay_line(t)) == Some((replay_line(t).len() as int, t)),
{
    reveal_strlit("MINISKILL-REPLAY: ");
    reveal_strlit("MINISKILL-REPLAY:");
    reveal_strlit(" ");
    let tag = "MINISKILL-REPLAY:"@;
    assert("MINISKILL-REPLAY: "@ =~= tag + " "@);
    lemma_replay_fields(t);
    lemma_tagged_roundtrip(tag, replay_wire_fields(t));
}

// ── CHALLENGE ────────────────────────────────────────────────────────────────

/// A CHALLENGE token whose fields can stand on the wire: the prompt is written
/// between quotes, the rest bare.
pub open spec fn challenge_wire_safe(t: ChallengeTokenModel) -> bool {
    &&& bare_ok(t.topic)
    &&& bare_ok(t.challenge_id)
    &&& optional_bare_ok(t.source)
    &&& quoted_ok(t.prompt)
}

proof fn lemma_challenge_fields(t: ChallengeTokenModel)
    requires
        challenge_wire_safe(t),
    ensures
        fields_ok(challenge_wire_fields(t)),
        challenge_from_pairs(pairs_of(challenge_wire_fields(t)), None) == Some(t),
{
    lemma_keys_ok();
    lemma_keys_distinct();
    let w = wire_keys();
    let f0 = bare("topic"@, t.topic);
    let f1 = bare("challenge-id"@, t.challenge_id);
    let r = seq![f0, f1];
    let o = optional_bare("source"@, t.source);
    let z = seq![quoted("prompt"@, t.prompt)];
    assert(challenge_wire_fields(t) == r + o + z);
    assert(fields_ok(r));
    assert(fields_ok(z));
    lemma_fields_ok_concat(r, o);
    lemma_fields_ok_concat(r + o, z);
    lemma_optional_len("source"@, t.source);
    assert(w[0] != w[15] && w[16] != w[0] && w[16] != w[15] && w[17] != w[0] && w[17] != w[15]
        && w[17] != w[16]);
    let kv = pairs_of(r + o + z);
    lemma_lookup_after_eq(r, o, "topic"@);
    lemma_lookup_after_eq(r + o, z, "topic"@);
    lemma_lookup_two(f0, f1, "topic"@);
    lemma_lookup_after_eq(r, o, "challenge-id"@);
    lemma_lookup_after_eq(r + o, z, "challenge-id"@);
    lemma_lookup_two(f0, f1, "challenge-id"@);
    lemma_lookup_after_eq(r, o, "source"@);
    lemma_lookup_after_eq(r + o, z, "source"@);
    lemma_lookup_two(f0, f1, "source"@);
    lemma_lookup_after_eq(r, o, "prompt"@);
    lemma_lookup_after_eq(r + o, z, "prompt"@);
    lemma_lookup_two(f0, f1, "prompt"@);
    assert(kv_lookup(kv, "topic"@) == Some(t.topic));
    assert(kv_lookup(kv, "challenge-id"@) == Some(t.challenge_id));
    assert(kv_lookup(kv, "source"@) == t.source);
    assert(kv_lookup(kv, "prompt"@) == Some(t.prompt));
}

/// The line that `emit_challenge` writes for a token whose fields can stand on
/// the wire reads back as that token, to the end of the line.
pub proof fn lemma_challenge_roundtrip(t: ChallengeTokenModel)
    requires
        challenge_wire_safe(t),
    ensures
        challenge_line_token(challenge_line(t)) == Some((challenge_line(t).len() as int, t)),
{
    reveal_strlit("MINISKILL-CHALLENGE: ");
    reveal_strlit("MINISKILL-CHALLENGE:");
    reveal_strlit(" ");
    let tag = "MINISKILL-CHALLENGE:"@;
    assert("MINISKILL-CHALLENGE: "@ =~= tag + " "@);
    lemma_challenge_fields(t);
    lemma_tagged_roundtrip(tag, challenge_wire_fields(t));
}

// ── RESPONSE ─────────────────────────────────────────────────────────────────

/// A RESPONSE token whose fields can stand on the wire: the body is written
/// between quotes, the rest bare.
pub open spec fn response_wire_safe(t: ResponseTokenModel) -> bool {
    &&& bare_ok(t.challenge_id)
    &&& bare_ok(t.respondent)
    &&& quoted_ok(t.body)
    &&& optional_bare_ok(t.sig)
}

proof fn lemma_response_fields(t: ResponseTokenModel)
    requires
        response_wire_safe(t),
    ensures
        fields_ok(response_wire_fields(t)),
        response_from_pairs(pairs_of(response_wire_fields(t)), None) == Some(t),
{
    lemma_keys_ok();
    lemma_keys_distinct();
    let w = wire_keys();
    let f0 = bare("challenge-id"@, t.challenge_id);
    let f1 = bare("respondent"@, t.respondent);
    let f2 = quoted("body"@, t.body);
    let r = seq![f0, f1, f2];
    let o = optional_bare("sig"@, t.sig);
    assert(response_wire_fields(t) == r + o);
    assert(fields_ok(r));
    lemma_fields_ok_concat(r, o);
    lemma_optional_len("sig"@, t.sig);
    assert(w[15] != w[18] && w[15] != w[19] && w[18] != w[19] && w[9] != w[15] && w[9] != w[18]
        && w[9] != w[19]);
    let kv = pairs_of(r + o);
    lemma_lookup_after_eq(r, o, "challenge-id"@);
    lemma_lookup_three(f0, f1, f2, "challenge-id"@);
    lemma_lookup_after_eq(r, o, "respondent"@);
    lemma_lookup_three(f0, f1, f2, "respondent"@);
    lemma_lookup_after_eq(r, o, "body"@);
    lemma_lookup_three(f0, f1, f2, "body"@);
    lemma_lookup_after_eq(r, o, "sig"@);
    lemma_lookup_three(f0, f1, f2, "sig"@);
    assert(kv_lookup(kv, "challenge-id"@) == Some(t.challenge_id));
    assert(kv_lookup(kv, "respondent"@) == Some(t.respondent));
    assert(kv_lookup(kv, "body"@) == Some(t.body));
    assert(kv_lookup(kv, "sig"@) == t.sig);
}

/// The line that `emit_response` writes for a token whose fields can stand on
/// the wire reads back as that token, to the end of the line.
pub proof fn lemma_response_roundtrip(t: ResponseTokenModel)
    requires
        response_wire_safe(t),
    ensures
        response_line_token(response_line(t)) == Some((response_line(t).len() as int, t)),
{
    reveal_strlit("MINISKILL-RESPONSE: ");
    reveal_strlit("MINISKILL-RESPONSE:");
    reveal_strlit(" ");
    let tag = "MINISKILL-RESPONSE:"@;
    assert("MINISKILL-RESPONSE: "@ =~= tag + " "@);
    lemma_response_fields(t);
    lemma_tagged_roundtrip(tag, response_wire_fields(t));
}

// ── SELF ─────────────────────────────────────────────────────────────────────

/// A segment text that the segment grammar reads back whole: nonempty, on one
/// line, free of `|`, and not starting with whitespace.
pub open spec fn item_ok(x: Seq<char>) -> bool {
    x.len() > 0 && all_in_class(x, CharClass::Segment) && !is_ws(x[0])
}

/// The segments as the reader takes them: every one but the last keeps the
/// space that stands before the following `|`.
pub open spec fn raw_segments(items: Seq<Seq<char>>) -> Seq<Seq<char>> {
    Seq::new(
        items.len(),
        |j: int|
            if j + 1 < items.len() {
                items[j].push(' ')
            } else {
                items[j]
            },
    )
}

pub proof fn lemma_join_push(p: Seq<Seq<char>>, x: Seq<char>, sep: Seq<char>)
    requires
        p.len() >= 1,
    ensures
        join(p.push(x), sep) == join(p, sep) + sep + x,
{
    assert(p.push(x).drop_last() =~= p);
}

/// After a segment whose reading stopped at `e`, the rest of a written list
/// reads back as its raw segments, up to the end of the line.
proof fn lemma_more_segments_roundtrip(s: Seq<char>, e: int, items: Seq<Seq<char>>)
    requires
        0 <= e <= s.len(),
        forall|j: int| 0 <= j < items.len() ==> item_ok(#[trigger] items[j]),
        items.len() == 0 ==> e == s.len(),
        items.len() > 0 ==> s.subrange(e, s.len() as int) == "| "@ + join(items, " | "@),
    ensures
        more_segments(s, e) == (raw_segments(items), s.len() as int),
    decreases items.len(),
{
    reveal_strlit("| ");
    reveal_strlit(" | ");
    if items.len() == 0 {
        lemma_span_exact(s, e, e, CharClass::Blank);
        assert(raw_segments(items) =~= Seq::<Seq<char>>::empty());
    } else {
        let x = items[0];
        let rest = items.drop_first();
        assert(item_ok(x));
        let tail = if items.len() == 1 {
            Seq::<char>::empty()
        } else {
            " | "@ + join(rest, " | "@)
        };
        if items.len() == 1 {
            assert(join(items, " | "@) == x);
            assert(x + tail =~= x);
        } else {
            lemma_join_front(items, " | "@);
            assert(x + " | "@ + join(rest, " | "@) =~= x + tail);
        }
        assert("| "@ + join(items, " | "@) =~= "| "@ + (x + tail));
        lemma_split_tail(s, e, "| "@, x + tail);
        lemma_split_tail(s, e + 2, x, tail);
        assert(("| "@)[0] == '|' && ("| "@)[1] == ' ');
        assert(s[e + 0] == '|' && s[e + 1] == ' ');
        assert(is_ws(' ') && is_ws('\t'));
        assert(s[e + 2] == x[0]);
        lemma_span_exact(s, e, e, CharClass::Blank);
        lemma_span_exact(s, e + 1, e + 2, CharClass::Blank);
        assert(pipe_at(s, e) == Some(e + 2));
        let m = e + 2 + x.len();
        assert forall|j: int| e + 2 <= j < m implies in_class(CharClass::Segment, #[trigger] s[j]) by {
            assert(s[e + 2 + (j - e - 2)] == x[j - e - 2]);
        }
        if items.len() == 1 {
            lemma_span_exact(s, e + 2, m, CharClass::Segment);
            assert(s.subrange(e + 2, m) =~= x);
            lemma_more_segments_roundtrip(s, m, rest);
            assert(raw_segments(items) =~= seq![x] + raw_segments(rest));
        } else {
            lemma_split_tail(s, m, " | "@, join(rest, " | "@));
            assert((" | "@)[0] == ' ' && (" | "@)[1] == '|');
            assert(s[m + 0] == ' ' && s[m + 1] == '|');
            lemma_span_exact(s, e + 2, m + 1, CharClass::Segment);
            assert(s.subrange(e + 2, m + 1) =~= x.push(' '));
            assert(s.subrange(m + 1, s.len() as int) =~= "| "@ + join(rest, " | "@)) by {
                assert(s.subrange(m, s.len() as int) == " | "@ + join(rest, " | "@));
                assert forall|j: int| 0 <= j < s.len() - m - 1 implies s.subrange(
                    m + 1,
                    s.len() as int,
                )[j] == ("| "@ + join(rest, " | "@))[j] by {
                    assert(s.subrange(m, s.len() as int)[j + 1] == (" | "@ + join(
                        rest,
                        " | "@,
                    ))[j + 1]);
                }
            }
            assert forall|j: int| 0 <= j < rest.len() implies item_ok(#[trigger] rest[j]) by {
                assert(rest[j] == items[j + 1]);
            }
            lemma_more_segments_roundtrip(s, m + 1, rest);
            assert(raw_segments(items) =~= seq![x.push(' ')] + raw_segments(rest));
        }
    }
}

/// A written, nonempty list of segments that runs to the end of the line reads
/// back as its raw segments.
proof fn lemma_segments_roundtrip(s: Seq<char>, i: int, items: Seq<Seq<char>>)
    requires
        0 <= i <= s.len(),
        items.len() > 0,
        forall|j: int| 0 <= j < items.len() ==> item_ok(#[trigger] items[j]),
        s.subrange(i, s.len() as int) == join(items, " | "@),
    ensures
        segments_at(s, i) == Some((raw_segments(items), s.len() as int)),
{
    reveal_strlit("| ");
    reveal_strlit(" | ");
    let x = items[0];
    let rest = items.drop_first();
    assert(item_ok(x));
    let tail = if items.len() == 1 {
        Seq::<char>::empty()
    } else {
        " | "@ + join(rest, " | "@)
    };
    if items.len() == 1 {
        assert(join(items, " | "@) == x);
        assert(x + tail =~= x);
    } else {
        lemma_join_front(items, " | "@);
        assert(x + " | "@ + join(rest, " | "@) =~= x + tail);
    }
    lemma_split_tail(s, i, x, tail);
    let m = i + x.len();
    assert forall|j: int| i <= j < m implies in_class(CharClass::Segment, #[trigger] s[j]) by {
        assert(s[i + (j - i)] == x[j - i]);
    }
    if items.len() == 1 {
        lemma_span_exact(s, i, m, CharClass::Segment);
        assert(s.subrange(i, m) =~= x);
        lemma_more_segments_roundtrip(s, m, rest);
        assert(raw_segments(items) =~= seq![x] + raw_segments(rest));
    } else {
        lemma_split_tail(s, m, " | "@, join(rest, " | "@));
        assert((" | "@)[0] == ' ' && (" | "@)[1] == '|');
        assert(s[m + 0] == ' ' && s[m + 1] == '|');
        lemma_span_exact(s, i, m + 1, CharClass::Segment);
        assert(s.subrange(i, m + 1) =~= x.push(' '));
        assert(s.subrange(m + 1, s.len() as int) =~= "| "@ + join(rest, " | "@)) by {
            assert forall|j: int| 0 <= j < s.len() - m - 1 implies s.subrange(
                m + 1,
                s.len() as int,
            )[j] == ("| "@ + join(rest, " | "@))[j] by {
                assert(s.subrange(m, s.len() as int)[j + 1] == (" | "@ + join(rest, " | "@))[j
                    + 1]);
            }
        }
        assert forall|j: int| 0 <= j < rest.len() implies item_ok(#[trigger] rest[j]) by {
            assert(rest[j] == items[j + 1]);
        }
        lemma_more_segments_roundtrip(s, m + 1, rest);
        assert(raw_segments(items) =~= seq![x.push(' ')] + raw_segments(rest));
    }
}

proof fn lemma_trim_push_space(x: Seq<char>)
    requires
        x.len() > 0,
        !is_ws(x[0]),
    ensures
        trim(x.push(' ')) == trim(x),
{
    let y = x.push(' ');
    lemma_lead_ws_exact(x, 0);
    lemma_lead_ws_exact(y, 0);
    assert(x.skip(0) =~= x);
    assert(y.skip(0) =~= y);
    assert(y.drop_last() =~= x);
    assert(is_ws(' '));
    assert(trail_ws(y) == 1 + trail_ws(x));
    crate::text::lemma_trail_ws_bound(x);
    assert(y.take(y.len() - trail_ws(y)) =~= x.take(x.len() - trail_ws(x)));
}

/// Segments with the same trimmed texts describe the same token.
pub proof fn lemma_fold_trim_eq(a: Seq<Seq<char>>, b: Seq<Seq<char>>)
    requires
        a.len() == b.len(),
        forall|j: int| 0 <= j < a.len() ==> trim(#[trigger] a[j]) == trim(b[j]),
    ensures
        fold_segments(a) == fold_segments(b),
    decreases a.len(),
{
    if a.len() > 0 {
        assert(trim(a[a.len() - 1]) == trim(b[b.len() - 1]));
        let a2 = a.drop_last();
        let b2 = b.drop_last();
        assert forall|j: int| 0 <= j < a2.len() implies trim(#[trigger] a2[j]) == trim(b2[j]) by {
            assert(a2[j] == a[j]);
            assert(b2[j] == b[j]);
        }
        lemma_fold_trim_eq(a2, b2);
    }
}

proof fn lemma_fold_raw(items: Seq<Seq<char>>)
    requires
        forall|j: int| 0 <= j < items.len() ==> item_ok(#[trigger] items[j]),
    ensures
        fold_segments(raw_segments(items)) == fold_segments(items),
{
    let r = raw_segments(items);
    assert forall|j: int| 0 <= j < r.len() implies trim(#[trigger] r[j]) == trim(items[j]) by {
        assert(item_ok(items[j]));
        if j + 1 < items.len() {
            lemma_trim_push_space(items[j]);
        }
    }
    lemma_fold_trim_eq(r, items);
}

proof fn lemma_fold_push(a: Seq<Seq<char>>, x: Seq<char>)
    ensures
        fold_segments(a.push(x)) == apply_segment(fold_segments(a), x),
{
    assert(a.push(x).drop_last() =~= a);
}

proof fn lemma_not_prefix(seg: Seq<char>, p: Seq<char>)
    requires
        seg.len() > 0,
        p.len() > 0,
        seg[0] != p[0],
    ensures
        !has_at(seg, 0, p),
{
    if has_at(seg, 0, p) {
        assert(seg.subrange(0, p.len() as int)[0] == seg[0]);
    }
}

proof fn lemma_prefix(a: Seq<char>, b: Seq<char>)
    ensures
        has_at(a + b, 0, a),
        (a + b).skip(a.len() as int) == b,
        a.len() > 0 ==> (a + b)[0] == a[0],
{
    assert((a + b).subrange(0, a.len() as int) =~= a);
    assert((a + b).skip(a.len() as int) =~= b);
}

proof fn lemma_last_index_none(x: Seq<char>, c: char)
    requires
        forall|j: int| 0 <= j < x.len() ==> #[trigger] x[j] != c,
    ensures
        last_index_of(x, c) is None,
    decreases x.len(),
{
    if x.len() > 0 {
        assert(x[x.len() - 1] != c);
        let d = x.drop_last();
        assert forall|j: int| 0 <= j < d.len() implies #[trigger] d[j] != c by {
            assert(d[j] == x[j]);
        }
        lemma_last_index_none(d, c);
    }
}

proof fn lemma_last_index_split(a: Seq<char>, b: Seq<char>, c: char)
    requires
        forall|j: int| 0 <= j < b.len() ==> #[trigger] b[j] != c,
    ensures
        last_index_of(a + seq![c] + b, c) == Some(a.len() as int),
    decreases b.len(),
{
    let x = a + seq![c] + b;
    if b.len() == 0 {
        assert(x.last() == c);
    } else {
        assert(x.last() == b[b.len() - 1]);
        let d = b.drop_last();
        assert forall|j: int| 0 <= j < d.len() implies #[trigger] d[j] != c by {
            assert(d[j] == b[j]);
        }
        assert(x.drop_last() =~= a + seq![c] + d);
        lemma_last_index_split(a, d, c);
    }
}

pub open spec fn no_space(x: Seq<char>) -> bool {
    forall|j: int| 0 <= j < x.len() ==> #[trigger] x[j] != ' '
}

/// A SELF token whose fields can stand on the wire: nothing holds a `|` or a
/// newline; the model version holds no space; the values end in a
/// non-whitespace character; where the model version is empty, the model
/// family holds no space either; the version and the AI key are nonempty.
pub open spec fn self_wire_safe(t: SelfTokenModel) -> bool {
    &&& all_in_class(t.model_family, CharClass::Segment)
    &&& all_in_class(t.model_version, CharClass::Segment)
    &&& no_space(t.model_version)
    &&& t.model_version.len() > 0 ==> !is_ws(t.model_version.last())
    &&& t.model_version.len() == 0 ==> no_space(t.model_family) && (t.model_family.len() > 0
        ==> !is_ws(t.model_family.last()))
    &&& all_in_class(t.topic, CharClass::Segment)
    &&& t.topic.len() > 0 ==> !is_ws(t.topic.last())
    &&& t.version matches Some(v) ==> v.len() > 0 && all_in_class(v, CharClass::Segment) && !is_ws(
        v.last(),
    )
    &&& t.ai_key matches Some(k) ==> k.len() > 0 && all_in_class(k, CharClass::Segment) && !is_ws(
        k.last(),
    )
}

pub open spec fn model_item(t: SelfTokenModel) -> Seq<char> {
    "MODEL "@ + t.model_family + " "@ + t.model_version
}

/// The segments that `emit_self` writes, in order.
pub open spec fn self_items(t: SelfTokenModel) -> Seq<Seq<char>> {
    let base = seq![
        model_item(t),
        "CT-SELF "@ + u8_text(t.ct_self),
        "topic "@ + t.topic,
    ];
    let a = match t.version {
        Some(v) => base.push("version "@ + v),
        None => base,
    };
    match t.ai_key {
        Some(k) => a.push("ai-key "@ + k),
        None => a,
    }
}

proof fn lemma_model_step(t: SelfTokenModel)
    requires
        self_wire_safe(t),
    ensures
        apply_segment(empty_self(), model_item(t)) == (SelfTokenModel {
            model_family: t.model_family,
            model_version: t.model_version,
            ..empty_self()
        }),
{
    reveal_strlit("MODEL ");
    reveal_strlit("CT-SELF ");
    reveal_strlit("topic ");
    reveal_strlit("version ");
    reveal_strlit("ai-key ");
    reveal_strlit("ai-key=");
    reveal_strlit(" ");
    let fam = t.model_family;
    let ver = t.model_version;
    let m = model_item(t);
    let kw = "MODEL "@;
    assert(" "@ =~= seq![' ']);
    let goal = SelfTokenModel { model_family: fam, model_version: ver, ..empty_self() };
    if ver.len() > 0 {
        let rest = fam + seq![' '] + ver;
        assert(m =~= kw + rest);
        assert(m.last() == ver.last());
        lemma_prefix(kw, rest);
        assert(m[0] == 'M');
        lemma_trim_unchanged(m);
        assert(trim(m) == m);
        assert(has_at(trim(m), 0, kw));
        assert(trim(m).skip(kw.len() as int) == rest);
        lemma_last_index_split(fam, ver, ' ');
        assert(rest.take(fam.len() as int) =~= fam);
        assert(rest.skip(fam.len() + 1int) =~= ver);
        assert(apply_segment(empty_self(), m) == goal);
    } else if fam.len() > 0 {
        let x = kw + fam;
        assert(m =~= x.push(' '));
        assert(x.last() == fam.last());
        lemma_prefix(kw, fam);
        lemma_trim_trailing_space(x);
        assert(trim(m) == x);
        lemma_last_index_none(fam, ' ');
        assert(empty_self().model_version =~= ver);
        assert(apply_segment(empty_self(), m) == goal);
    } else {
        assert(m =~= seq!['M', 'O', 'D', 'E', 'L', ' ', ' ']);
        lemma_lead_ws_exact(m, 0);
        assert(m.skip(0) =~= m);
        assert(is_ws(' '));
        lemma_trail_ws_exact(m, 2);
        assert(trim(m).len() == 5);
        assert(empty_self().model_family =~= fam);
        assert(empty_self().model_version =~= ver);
        assert(apply_segment(empty_self(), m) == goal);
    }
}

proof fn lemma_ct_step(t0: SelfTokenModel, n: u8)
    ensures
        apply_segment(t0, "CT-SELF "@ + u8_text(n)) == (SelfTokenModel { ct_self: n, ..t0 }),
{
    reveal_strlit("MODEL ");
    reveal_strlit("CT-SELF ");
    let kw = "CT-SELF "@;
    let x = kw + u8_text(n);
    lemma_u8_text_ok(n);
    lemma_u8_text_roundtrip(n);
    lemma_prefix(kw, u8_text(n));
    assert(x.last() == u8_text(n).last());
    lemma_trim_unchanged(x);
    lemma_trim_unchanged(u8_text(n));
    lemma_not_prefix(x, "MODEL "@);
}

proof fn lemma_topic_step(t0: SelfTokenModel, topic: Seq<char>)
    requires
        topic.len() > 0 ==> !is_ws(topic.last()),
        t0.topic.len() == 0,
    ensures
        apply_segment(t0, "topic "@ + topic) == (SelfTokenModel { topic, ..t0 }),
{
    reveal_strlit("MODEL ");
    reveal_strlit("CT-SELF ");
    reveal_strlit("topic ");
    reveal_strlit("version ");
    reveal_strlit("ai-key ");
    reveal_strlit("ai-key=");
    let kw = "topic "@;
    let x = kw + topic;
    lemma_prefix(kw, topic);
    if topic.len() > 0 {
        assert(x.last() == topic.last());
        lemma_trim_unchanged(x);
        lemma_not_prefix(x, "MODEL "@);
        lemma_not_prefix(x, "CT-SELF "@);
    } else {
        assert(x =~= seq!['t', 'o', 'p', 'i', 'c', ' ']);
        lemma_lead_ws_exact(x, 0);
        assert(x.skip(0) =~= x);
        assert(is_ws(' '));
        lemma_trail_ws_exact(x, 1);
        assert(trim(x).len() == 5);
        assert(t0.topic =~= topic);
    }
}

proof fn lemma_version_step(t0: SelfTokenModel, v: Seq<char>)
    requires
        v.len() > 0,
        !is_ws(v.last()),
    ensures
        apply_segment(t0, "version "@ + v) == (SelfTokenModel { version: Some(v), ..t0 }),
{
    reveal_strlit("MODEL ");
    reveal_strlit("CT-SELF ");
    reveal_strlit("topic ");
    reveal_strlit("version ");
    let kw = "version "@;
    let x = kw + v;
    lemma_prefix(kw, v);
    assert(x.last() == v.last());
    lemma_trim_unchanged(x);
    lemma_not_prefix(x, "MODEL "@);
    lemma_not_prefix(x, "CT-SELF "@);
    lemma_not_prefix(x, "topic "@);
}

proof fn lemma_ai_key_step(t0: SelfTokenModel, k: Seq<char>)
    requires
        k.len() > 0,
        !is_ws(k.last()),
    ensures
        apply_segment(t0, "ai-key "@ + k) == (SelfTokenModel { ai_key: Some(k), ..t0 }),
{
    reveal_strlit("MODEL ");
    reveal_strlit("CT-SELF ");
    reveal_strlit("topic ");
    reveal_strlit("version ");
    reveal_strlit("ai-key ");
    reveal_strlit("ai-key=");
    let kw = "ai-key "@;
    let x = kw + k;
    lemma_prefix(kw, k);
    assert(x.last() == k.last());
    lemma_trim_unchanged(x);
    lemma_not_prefix(x, "MODEL "@);
    lemma_not_prefix(x, "CT-SELF "@);
    lemma_not_prefix(x, "topic "@);
    lemma_not_prefix(x, "version "@);
}

proof fn lemma_self_fold(t: SelfTokenModel)
    requires
        self_wire_safe(t),
    ensures
        fold_segments(self_items(t)) == t,
{
    let m = model_item(t);
    let c = "CT-SELF "@ + u8_text(t.ct_self);
    let tp = "topic "@ + t.topic;
    let e = Seq::<Seq<char>>::empty();
    assert(seq![m] =~= e.push(m));
    assert(seq![m, c] =~= seq![m].push(c));
    assert(seq![m, c, tp] =~= seq![m, c].push(tp));
    lemma_fold_push(e, m);
    lemma_fold_push(seq![m], c);
    lemma_fold_push(seq![m, c], tp);
    lemma_model_step(t);
    let t1 = apply_segment(empty_self(), m);
    lemma_ct_step(t1, t.ct_self);
    let t2 = apply_segment(t1, c);
    lemma_topic_step(t2, t.topic);
    let t3 = apply_segment(t2, tp);
    let base = seq![m, c, tp];
    let a = match t.version {
        Some(v) => base.push("version "@ + v),
        None => base,
    };
    let t4 = match t.version {
        Some(v) => apply_segment(t3, "version "@ + v),
        None => t3,
    };
    if let Some(v) = t.version {
        lemma_fold_push(base, "version "@ + v);
        lemma_version_step(t3, v);
    }
    assert(fold_segments(a) == t4);
    if let Some(k) = t.ai_key {
        lemma_fold_push(a, "ai-key "@ + k);
        lemma_ai_key_step(t4, k);
    }
}

proof fn lemma_self_item_chars(t: SelfTokenModel)
    requires
        self_wire_safe(t),
    ensures
        forall|j: int| 0 <= j < self_items(t).len() ==> item_ok(#[trigger] self_items(t)[j]),
{
    reveal_strlit("MODEL ");
    reveal_strlit("CT-SELF ");
    reveal_strlit("topic ");
    reveal_strlit("version ");
    reveal_strlit("ai-key ");
    reveal_strlit("ai-key=");
    reveal_strlit(" ");
    let m = model_item(t);
    let c = "CT-SELF "@ + u8_text(t.ct_self);
    let tp = "topic "@ + t.topic;
    lemma_u8_text_ok(t.ct_self);
    let items = self_items(t);
    assert(is_ws(' ') && is_ws('\t'));
    assert(item_ok(m)) by {
        assert forall|j: int| 0 <= j < m.len() implies in_class(CharClass::Segment, #[trigger] m[j]) by {
            if j >= 6 + t.model_family.len() + 1 {
                assert(m[j] == t.model_version[j - 7 - t.model_family.len()]);
            } else if j >= 6 && j < 6 + t.model_family.len() {
                assert(m[j] == t.model_family[j - 6]);
            }
        }
    }
    assert(item_ok(c)) by {
        assert forall|j: int| 0 <= j < c.len() implies in_class(CharClass::Segment, #[trigger] c[j]) by {
            if j >= 8 {
                assert(c[j] == u8_text(t.ct_self)[j - 8]);
            }
        }
    }
    assert(item_ok(tp)) by {
        assert forall|j: int| 0 <= j < tp.len() implies in_class(CharClass::Segment, #[trigger] tp[j]) by {
            if j >= 6 {
                assert(tp[j] == t.topic[j - 6]);
            }
        }
    }
    if let Some(v) = t.version {
        let x = "version "@ + v;
        assert(item_ok(x)) by {
            assert forall|j: int| 0 <= j < x.len() implies in_class(CharClass::Segment, #[trigger] x[j]) by {
                if j >= 8 {
                    assert(x[j] == v[j - 8]);
                }
            }
        }
    }
    if let Some(k) = t.ai_key {
        let x = "ai-key "@ + k;
        assert(item_ok(x)) by {
            assert forall|j: int| 0 <= j < x.len() implies in_class(CharClass::Segment, #[trigger] x[j]) by {
                if j >= 7 {
                    assert(x[j] == k[j - 7]);
                }
            }
        }
    }
}

#[verifier::rlimit(40)]
proof fn lemma_self_items_ok(t: SelfTokenModel)
    requires
        self_wire_safe(t),
    ensures
        forall|j: int| 0 <= j < self_items(t).len() ==> item_ok(#[trigger] self_items(t)[j]),
        self_line(t) == "MINISKILL-SELF: "@ + join(self_items(t), " | "@),
        self_items(t).len() >= 3,
{
    reveal_strlit("MODEL ");
    reveal_strlit("CT-SELF ");
    reveal_strlit("topic ");
    reveal_strlit("version ");
    reveal_strlit("ai-key ");
    reveal_strlit("ai-key=");
    reveal_strlit(" ");
    reveal_strlit(" | ");
    reveal_strlit("MINISKILL-SELF: MODEL ");
    reveal_strlit("MINISKILL-SELF: ");
    reveal_strlit(" | CT-SELF ");
    reveal_strlit(" | topic ");
    reveal_strlit(" | version ");
    reveal_strlit(" | ai-key ");
    lemma_self_item_chars(t);
    let m = model_item(t);
    let c = "CT-SELF "@ + u8_text(t.ct_self);
    let tp = "topic "@ + t.topic;
    let items = self_items(t);
    let base = seq![m, c, tp];
    assert(base =~= seq![m].push(c).push(tp));
    assert(seq![m].push(c) =~= seq![m, c]);
    assert(join(seq![m], " | "@) == m);
    lemma_join_push(seq![m], c, " | "@);
    lemma_join_push(seq![m, c], tp, " | "@);
    let a = match t.version {
        Some(v) => base.push("version "@ + v),
        None => base,
    };
    if let Some(v) = t.version {
        lemma_join_push(base, "version "@ + v, " | "@);
    }
    if let Some(k) = t.ai_key {
        lemma_join_push(a, "ai-key "@ + k, " | "@);
    }
    let head = "MINISKILL-SELF: "@ + m + " | "@ + c + " | "@ + tp;
    assert("MINISKILL-SELF: MODEL "@ + t.model_family + " "@ + t.model_version + " | CT-SELF "@
        + u8_text(t.ct_self) + " | topic "@ + t.topic =~= head);
    assert(join(base, " | "@) == m + " | "@ + c + " | "@ + tp);
    assert("MINISKILL-SELF: "@ + join(base, " | "@) =~= head);
    if let Some(v) = t.version {
        assert(optional_segment(" | version "@, t.version) =~= " | "@ + ("version "@ + v));
    }
    if let Some(k) = t.ai_key {
        assert(optional_segment(" | ai-key "@, t.ai_key) =~= " | "@ + ("ai-key "@ + k));
    }
    assert(self_line(t) =~= "MINISKILL-SELF: "@ + join(items, " | "@));
}

/// The line that `emit_self` writes for a token whose fields can stand on the
/// wire reads back as that token, to the end of the line.
pub proof fn lemma_self_roundtrip(t: SelfTokenModel)
    requires
        self_wire_safe(t),
    ensures
        self_line_token(self_line(t)) == Some((self_line(t).len() as int, t)),
{
    reveal_strlit("MINISKILL-SELF: ");
    reveal_strlit("MINISKILL-SELF:");
    reveal_strlit(" ");
    lemma_self_items_ok(t);
    let s = self_line(t);
    let items = self_items(t);
    let tag = "MINISKILL-SELF:"@;
    let h = "MINISKILL-SELF: "@;
    assert(h =~= tag + " "@);
    assert(s.subrange(0, tag.len() as int) =~= tag);
    assert(s.subrange(h.len() as int, s.len() as int) =~= join(items, " | "@));
    assert(s[tag.len() as int] == ' ');
    lemma_join_front(items, " | "@);
    assert(item_ok(items[0]));
    assert(s[h.len() as int] == join(items, " | "@)[0]);
    assert(join(items, " | "@)[0] == items[0][0]);
    assert(is_ws(' ') && is_ws('\t'));
    lemma_span_exact(s, tag.len() as int, h.len() as int, CharClass::Blank);
    lemma_segments_roundtrip(s, h.len() as int, items);
    lemma_fold_raw(items);
    lemma_self_fold(t);
}

// ── Any kind ─────────────────────────────────────────────────────────────────

/// A token of any kind whose fields can stand on the wire.
pub open spec fn wire_safe(t: WireTokenModel) -> bool {
    match t {
        WireTokenModel::Self_(x) => self_wire_safe(x),
        WireTokenModel::Attest(x) => attest_wire_safe(x),
        WireTokenModel::Vouch(x) => vouch_wire_safe(x),
        WireTokenModel::Replay(x) => replay_wire_safe(x),
        WireTokenModel::Challenge(x) => challenge_wire_safe(x),
        WireTokenModel::Response(x) => response_wire_safe(x),
    }
}

proof fn lemma_tag_mismatch(s: Seq<char>, p: Seq<char>, q: Seq<char>, j: int)
    requires
        has_at(s, 0, p),
        0 <= j < p.len(),
        j < q.len(),
        p[j] != q[j],
    ensures
        !has_at(s, 0, q),
{
    assert(s.subrange(0, p.len() as int)[j] == s[j]);
    if has_at(s, 0, q) {
        assert(s.subrange(0, q.len() as int)[j] == s[j]);
    }
}

/// The line written for a token starts with the tag of its kind.
proof fn lemma_line_tag(t: WireTokenModel)
    ensures
        match t {
            WireTokenModel::Self_(_) => has_at(wire_line(t), 0, "MINISKILL-SELF:"@),
            WireTokenModel::Attest(_) => has_at(wire_line(t), 0, "MINISKILL-ATTEST:"@),
            WireTokenModel::Vouch(_) => has_at(wire_line(t), 0, "MINISKILL-VOUCH:"@),
            WireTokenModel::Replay(_) => has_at(wire_line(t), 0, "MINISKILL-REPLAY:"@),
            WireTokenModel::Challenge(_) => has_at(wire_line(t), 0, "MINISKILL-CHALLENGE:"@),
            WireTokenModel::Response(_) => has_at(wire_line(t), 0, "MINISKILL-RESPONSE:"@),
        },
{
    reveal_strlit("MINISKILL-SELF: MODEL ");
    reveal_strlit("MINISKILL-SELF:");
    reveal_strlit("MINISKILL-ATTEST: ");
    reveal_strlit("MINISKILL-ATTEST:");
    reveal_strlit("MINISKILL-VOUCH: ");
    reveal_strlit("MINISKILL-VOUCH:");
    reveal_strlit("MINISKILL-REPLAY: ");
    reveal_strlit("MINISKILL-REPLAY:");
    reveal_strlit("MINISKILL-CHALLENGE: ");
    reveal_strlit("MINISKILL-CHALLENGE:");
    reveal_strlit("MINISKILL-RESPONSE: ");
    reveal_strlit("MINISKILL-RESPONSE:");
    let s = wire_line(t);
    match t {
        WireTokenModel::Self_(x) => {
            let h = "MINISKILL-SELF: MODEL "@;
            let tag = "MINISKILL-SELF:"@;
            assert(s.subrange(0, tag.len() as int) =~= tag) by {
                assert forall|j: int| 0 <= j < tag.len() implies s[j] == tag[j] by {
                    assert(s[j] == h[j]);
                }
            }
        },
        WireTokenModel::Attest(_) => {
            assert(s.subrange(0, 17) =~= "MINISKILL-ATTEST:"@);
        },
        WireTokenModel::Vouch(_) => {
            assert(s.subrange(0, 16) =~= "MINISKILL-VOUCH:"@);
        },
        WireTokenModel::Replay(_) => {
            assert(s.subrange(0, 17) =~= "MINISKILL-REPLAY:"@);
        },
        WireTokenModel::Challenge(_) => {
            assert(s.subrange(0, 20) =~= "MINISKILL-CHALLENGE:"@);
        },
        WireTokenModel::Response(_) => {
            assert(s.subrange(0, 19) =~= "MINISKILL-RESPONSE:"@);
        },
    }
}

/// The line that `emit_wire_token` writes for a token whose fields can stand on
/// the wire reads back, by `parse_wire_token`, as that token, to the end of the
/// line.
pub proof fn lemma_wire_roundtrip(t: WireTokenModel)
    requires
        wire_safe(t),
    ensures
        wire_line_token(wire_line(t)) == Some((wire_line(t).len() as int, t)),
{
    reveal_strlit("MINISKILL-SELF:");
    reveal_strlit("MINISKILL-ATTEST:");
    reveal_strlit("MINISKILL-VOUCH:");
    reveal_strlit("MINISKILL-REPLAY:");
    reveal_strlit("MINISKILL-CHALLENGE:");
    reveal_strlit("MINISKILL-RESPONSE:");
    let s = wire_line(t);
    let self_tag = "MINISKILL-SELF:"@;
    let attest_tag = "MINISKILL-ATTEST:"@;
    let vouch_tag = "MINISKILL-VOUCH:"@;
    let replay_tag = "MINISKILL-REPLAY:"@;
    let challenge_tag = "MINISKILL-CHALLENGE:"@;
    let response_tag = "MINISKILL-RESPONSE:"@;
    lemma_line_tag(t);
    match t {
        WireTokenModel::Self_(x) => {
            lemma_self_roundtrip(x);
        },
        WireTokenModel::Attest(x) => {
            lemma_tag_mismatch(s, attest_tag, self_tag, 10);
            lemma_attest_roundtrip(x);
        },
        WireTokenModel::Vouch(x) => {
            lemma_tag_mismatch(s, vouch_tag, self_tag, 10);
            lemma_tag_mismatch(s, vouch_tag, attest_tag, 10);
            lemma_vouch_roundtrip(x);
        },
        WireTokenModel::Replay(x) => {
            lemma_tag_mismatch(s, replay_tag, self_tag, 10);
            lemma_tag_mismatch(s, replay_tag, attest_tag, 10);
            lemma_tag_mismatch(s, replay_tag, vouch_tag, 10);
            lemma_replay_roundtrip(x);
        },
        WireTokenModel::Challenge(x) => {
            lemma_tag_mismatch(s, challenge_tag, self_tag, 10);
            lemma_tag_mismatch(s, challenge_tag, attest_tag, 10);
            lemma_tag_mismatch(s, challenge_tag, vouch_tag, 10);
            lemma_tag_mismatch(s, challenge_tag, replay_tag, 10);
            lemma_challenge_roundtrip(x);
        },
        WireTokenModel::Response(x) => {
            lemma_tag_mismatch(s, response_tag, self_tag, 10);
            lemma_tag_mismatch(s, response_tag, attest_tag, 10);
            lemma_tag_mismatch(s, response_tag, vouch_tag, 10);
            lemma_tag_mismatch(s, response_tag, replay_tag, 12);
            lemma_tag_mismatch(s, response_tag, challenge_tag, 10);
            lemma_response_roundtrip(x);
        },
    }
}

/// A line that reads as a token with fields that can stand on the wire is read
/// back the same from the line that the writer makes of that token.
pub proof fn lemma_reparse(line: Seq<char>)
    requires
        wire_line_token(line) matches Some((_, t)) && wire_safe(t),
    ensures
        wire_line_token(line) matches Some((_, t)) && wire_line_token(wire_line(t)) == Some(
            (wire_line(t).len() as int, t),
        ),
{
    if let Some((_, t)) = wire_line_token(line) {
        lemma_wire_roundtrip(t);
    }
}

// ── Links and files ──────────────────────────────────────────────────────────

/// A line that, once trimmed, does not start with `[miniskill:` is no link.
pub proof fn lemma_non_link_line(line: Seq<char>)
    requires
        !has_at(trim(line), 0, "[miniskill:"@),
    ensures
        agent_link_line(line) is None,
{
}

/// The body splits exactly when it holds `---gate---`, and the skill part never
/// holds it: the split is at the first occurrence.
pub proof fn lemma_gate_split_first(body: Seq<char>)
    ensures
        gate_split(body) is Some <==> exists|j: int| has_at(body, j, "---gate---"@),
        gate_split(body) matches Some((skill, _)) ==> forall|j: int|
            !has_at(skill, j, "---gate---"@),
{
    let d = "---gate---"@;
    lemma_find_from(body, 0, d);
    match find_from(body, 0, d) {
        Some(p) => {
            let skill = trim_end(body.take(p));
            crate::text::lemma_trail_ws_bound(body.take(p));
            reveal_strlit("---gate---");
            assert(skill.len() <= p);
            assert forall|j: int| !has_at(skill, j, d) by {
                if has_at(skill, j, d) {
                    assert forall|i: int| j <= i < j + d.len() implies skill[i] == body[i] by {
                        assert(skill[i] == body.take(p)[i]);
                    }
                    assert(body.subrange(j, j + d.len()) =~= skill.subrange(j, j + d.len()));
                    assert(has_at(body, j, d));
                    assert(j < p);
                }
            }
        },
        None => {
            assert forall|j: int| !has_at(body, j, d) by {
                if j < 0 {
                } else {
                }
            }
        },
    }
}

// ── The order of SELF segments ───────────────────────────────────────────────

/// The kind of a SELF segment, by its keyword: 1 `MODEL`, 2 `CT-SELF`, 3
/// `topic`, 4 `version`, 5 the AI key (in either form), 0 a segment that is not
/// recognised.
pub open spec fn segment_kind(raw: Seq<char>) -> int {
    let seg = trim(raw);
    if has_at(seg, 0, "MODEL "@) {
        1
    } else if has_at(seg, 0, "CT-SELF "@) {
        2
    } else if has_at(seg, 0, "topic "@) {
        3
    } else if has_at(seg, 0, "version "@) {
        4
    } else if has_at(seg, 0, "ai-key "@) || has_at(seg, 0, "ai-key="@) {
        5
    } else {
        0
    }
}

/// No two recognised segments of `segs` are of the same kind.
pub open spec fn kinds_distinct(segs: Seq<Seq<char>>) -> bool {
    forall|i: int, j: int|
        #![trigger segs[i], segs[j]]
        0 <= i < segs.len() && 0 <= j < segs.len() && i != j && segment_kind(segs[i]) != 0
            ==> segment_kind(segs[i]) != segment_kind(segs[j])
}

/// Two segments of different kinds, or an unrecognised one, may be applied in
/// either order.
proof fn lemma_apply_commute(t: SelfTokenModel, a: Seq<char>, b: Seq<char>)
    requires
        segment_kind(a) != segment_kind(b) || segment_kind(a) == 0,
    ensures
        apply_segment(apply_segment(t, a), b) == apply_segment(apply_segment(t, b), a),
{
}

/// A segment whose kind no other segment shares can be applied last.
proof fn lemma_fold_move_last(segs: Seq<Seq<char>>, j: int)
    requires
        0 <= j < segs.len(),
        kinds_distinct(segs),
    ensures
        fold_segments(segs) == apply_segment(fold_segments(segs.remove(j)), segs[j]),
    decreases segs.len(),
{
    let n = segs.len() - 1;
    if j == n {
        assert(segs.remove(j) =~= segs.drop_last());
    } else {
        let d = segs.drop_last();
        assert forall|a: int, b: int|
            #![trigger d[a], d[b]]
            0 <= a < d.len() && 0 <= b < d.len() && a != b && segment_kind(d[a]) != 0 implies
                segment_kind(d[a]) != segment_kind(d[b]) by {
            assert(d[a] == segs[a] && d[b] == segs[b]);
        }
        lemma_fold_move_last(d, j);
        let x = fold_segments(d.remove(j));
        assert(segment_kind(segs[j]) == 0 || segment_kind(segs[j]) != segment_kind(segs[n]));
        lemma_apply_commute(x, segs[j], segs[n]);
        let r = segs.remove(j);
        assert(r.drop_last() =~= d.remove(j));
        assert(r.last() == segs[n]);
    }
}

/// The SELF fields read from a list of segments do not depend on their order,
/// as long as no kind of segment occurs twice: any rearrangement of the same
/// segments gives the same token.
pub proof fn lemma_self_segment_order(a: Seq<Seq<char>>, b: Seq<Seq<char>>)
    requires
        a.to_multiset() == b.to_multiset(),
        kinds_distinct(a),
    ensures
        fold_segments(a) == fold_segments(b),
    decreases b.len(),
{
    broadcast use vstd::multiset::group_multiset_axioms;
    broadcast use vstd::seq_lib::group_to_multiset_ensures;

    if b.len() == 0 {
        assert(a.to_multiset().len() == 0);
        assert(a =~= b);
    } else {
        let x = b.last();
        let c = b.drop_last();
        assert(b =~= c.push(x));
        assert(b.to_multiset() =~= c.to_multiset().insert(x));
        assert(b.to_multiset().count(x) > 0);
        assert(a.contains(x));
        let j = choose|j: int| 0 <= j < a.len() && a[j] == x;
        let r = a.remove(j);
        assert(r.to_multiset() == a.to_multiset().remove(a[j]));
        assert(r.to_multiset() =~= c.to_multiset());
        assert forall|p: int, q: int|
            #![trigger r[p], r[q]]
            0 <= p < r.len() && 0 <= q < r.len() && p != q && segment_kind(r[p]) != 0 implies
                segment_kind(r[p]) != segment_kind(r[q]) by {
            let pp = if p < j { p } else { p + 1 };
            let qq = if q < j { q } else { q + 1 };
            assert(r[p] == a[pp] && r[q] == a[qq]);
        }
        lemma_fold_move_last(a, j);
        lemma_self_segment_order(r, c);
    }
}

/// A SELF line made of the given segments, in order.
pub open spec fn self_line_of(items: Seq<Seq<char>>) -> Seq<char> {
    "MINISKILL-SELF: "@ + join(items, " | "@)
}

/// A SELF line made of segments that stand on the wire unchanged reads, to its
/// end, as the fold of those segments.
pub proof fn lemma_self_line_of(items: Seq<Seq<char>>)
    requires
        items.len() >= 1,
        forall|j: int| 0 <= j < items.len() ==> item_ok(#[trigger] items[j]),
    ensures
        self_line_token(self_line_of(items)) == Some(
            (self_line_of(items).len() as int, fold_segments(items)),
        ),
{
    reveal_strlit("MINISKILL-SELF: ");
    reveal_strlit("MINISKILL-SELF:");
    reveal_strlit(" ");
    let s = self_line_of(items);
    let tag = "MINISKILL-SELF:"@;
    let h = "MINISKILL-SELF: "@;
    assert(h =~= tag + " "@);
    assert(s.subrange(0, tag.len() as int) =~= tag);
    assert(s.subrange(h.len() as int, s.len() as int) =~= join(items, " | "@));
    assert(s[tag.len() as int] == ' ');
    if items.len() >= 2 {
        lemma_join_front(items, " | "@);
    }
    assert(item_ok(items[0]));
    assert(s[h.len() as int] == join(items, " | "@)[0]);
    assert(join(items, " | "@)[0] == items[0][0]);
    assert(is_ws(' ') && is_ws('\t'));
    lemma_span_exact(s, tag.len() as int, h.len() as int, CharClass::Blank);
    lemma_segments_roundtrip(s, h.len() as int, items);
    lemma_fold_raw(items);
}

/// A SELF line reads as the same token whatever the order of its segments, as
/// long as each segment stands on the wire unchanged and no kind of segment
/// occurs twice: both lines are read to their end, as the same token.
pub proof fn lemma_self_line_order(a: Seq<Seq<char>>, b: Seq<Seq<char>>)
    requires
        a.len() >= 1,
        forall|j: int| 0 <= j < a.len() ==> item_ok(#[trigger] a[j]),
        a.to_multiset() == b.to_multiset(),
        kinds_distinct(a),
    ensures
        self_line_token(self_line_of(a)) == Some(
            (self_line_of(a).len() as int, fold_segments(a)),
        ),
        self_line_token(self_line_of(b)) == Some(
            (self_line_of(b).len() as int, fold_segments(a)),
        ),
{
    broadcast use vstd::multiset::group_multiset_axioms;
    broadcast use vstd::seq_lib::group_to_multiset_ensures;

    assert(b.len() == b.to_multiset().len());
    assert(a.len() == a.to_multiset().len());
    assert forall|j: int| 0 <= j < b.len() implies item_ok(#[trigger] b[j]) by {
        assert(b.contains(b[j]));
        assert(b.to_multiset().count(b[j]) > 0);
        assert(a.contains(b[j]));
        let k = choose|k: int| 0 <= k < a.len() && a[k] == b[j];
        assert(item_ok(a[k]));
    }
    lemma_self_line_of(a);
    lemma_self_line_of(b);
    lemma_self_segment_order(a, b);
}

// ── Keyed fields before a prompt or body without a key ───────────────────────

/// The keyed fields of a CHALLENGE line whose prompt stands without a key.
pub open spec fn challenge_keyed_fields(
    topic: Seq<char>,
    id: Seq<char>,
    source: Option<Seq<char>>,
) -> Seq<WireField> {
    seq![bare("topic"@, topic), bare("challenge-id"@, id)] + optional_bare("source"@, source)
}

pub proof fn lemma_challenge_keyed(topic: Seq<char>, id: Seq<char>, source: Option<Seq<char>>)
    requires
        bare_ok(topic),
        bare_ok(id),
        optional_bare_ok(source),
    ensures
        fields_ok(challenge_keyed_fields(topic, id, source)),
        !challenge_keyed_fields(topic, id, source).last().quoted,
        challenge_keyed_fields(topic, id, source).len() >= 2,
        kv_lookup(pairs_of(challenge_keyed_fields(topic, id, source)), "topic"@) == Some(topic),
        kv_lookup(pairs_of(challenge_keyed_fields(topic, id, source)), "challenge-id"@) == Some(id),
        kv_lookup(pairs_of(challenge_keyed_fields(topic, id, source)), "source"@) == source,
        kv_lookup(pairs_of(challenge_keyed_fields(topic, id, source)), "prompt"@) is None,
{
    lemma_keys_ok();
    lemma_keys_distinct();
    let w = wire_keys();
    let f0 = bare("topic"@, topic);
    let f1 = bare("challenge-id"@, id);
    let r = seq![f0, f1];
    let o = optional_bare("source"@, source);
    assert(fields_ok(r));
    lemma_fields_ok_concat(r, o);
    lemma_optional_len("source"@, source);
    assert(w[0] != w[15] && w[16] != w[0] && w[16] != w[15] && w[17] != w[0] && w[17] != w[15]
        && w[17] != w[16]);
    lemma_lookup_after_eq(r, o, "topic"@);
    lemma_lookup_two(f0, f1, "topic"@);
    lemma_lookup_after_eq(r, o, "challenge-id"@);
    lemma_lookup_two(f0, f1, "challenge-id"@);
    lemma_lookup_after_eq(r, o, "source"@);
    lemma_lookup_two(f0, f1, "source"@);
    lemma_lookup_after_eq(r, o, "prompt"@);
    lemma_lookup_two(f0, f1, "prompt"@);
    if source is Some {
        assert((r + o).last() == o[0]);
    } else {
        assert(r + o =~= r);
    }
}

/// The keyed fields of a RESPONSE line before a body that stands without a key.
pub open spec fn response_keyed_fields(id: Seq<char>, respondent: Seq<char>) -> Seq<WireField> {
    seq![bare("challenge-id"@, id), bare("respondent"@, respondent)]
}

pub proof fn lemma_response_keyed(
    id: Seq<char>,
    respondent: Seq<char>,
    sig: Option<Seq<char>>,
)
    requires
        bare_ok(id),
        bare_ok(respondent),
        optional_bare_ok(sig),
    ensures
        fields_ok(response_keyed_fields(id, respondent)),
        fields_ok(optional_bare("sig"@, sig)),
        ({
            let kv = pairs_of(response_keyed_fields(id, respondent) + optional_bare("sig"@, sig));
            &&& kv_lookup(kv, "challenge-id"@) == Some(id)
            &&& kv_lookup(kv, "respondent"@) == Some(respondent)
            &&& kv_lookup(kv, "body"@) is None
            &&& kv_lookup(kv, "response"@) is None
            &&& kv_lookup(kv, "sig"@) == sig
        }),
{
    lemma_keys_ok();
    lemma_keys_distinct();
    let w = wire_keys();
    let f0 = bare("challenge-id"@, id);
    let f1 = bare("respondent"@, respondent);
    let r = seq![f0, f1];
    let o = optional_bare("sig"@, sig);
    assert(fields_ok(r));
    lemma_optional_len("sig"@, sig);
    assert(w[9] != w[15] && w[9] != w[18] && w[15] != w[18] && w[19] != w[15] && w[19] != w[18]
        && w[19] != w[9] && w[20] != w[15] && w[20] != w[18] && w[20] != w[9]);
    lemma_lookup_after_eq(r, o, "challenge-id"@);
    lemma_lookup_two(f0, f1, "challenge-id"@);
    lemma_lookup_after_eq(r, o, "respondent"@);
    lemma_lookup_two(f0, f1, "respondent"@);
    lemma_lookup_after_eq(r, o, "body"@);
    lemma_lookup_two(f0, f1, "body"@);
    lemma_lookup_after_eq(r, o, "response"@);
    lemma_lookup_two(f0, f1, "response"@);
    lemma_lookup_after_eq(r, o, "sig"@);
    lemma_lookup_two(f0, f1, "sig"@);
}

} // verus!
