//! What the readers and writers do, stated over the text of a line: the exact
//! characters that each writer puts on the line, and how each reader takes a
//! line apart into its pieces.

use vstd::prelude::*;

use crate::emitter::{
    bare, self_line, attest_line, attest_wire_fields, challenge_line, challenge_wire_fields, fields_text,
    optional_bare, optional_quoted, render, rendered, replay_line, replay_wire_fields,
    response_line, response_wire_fields, vouch_line, vouch_wire_fields, WireField,
    lemma_rendered_push,
};
use crate::agents::{agent_link_line, glob_end, more_globs, scope_comment_at};
use crate::file::{frontmatter, gate_split, nom_error_text, sections, NomErrorKind};
use crate::kv::{value_at, keyless_at, kv_lookup, kv_pairs_at, more_pairs, pair_at, pipe_at, quoted_at, Pair};
use crate::emitter::join;
use crate::laws::{
    challenge_keyed_fields, lemma_challenge_keyed, lemma_response_keyed, response_keyed_fields,
    bare_ok, field_ok, fields_ok, key_ok, lemma_fields_text_front, lemma_more_pairs_roundtrip,
    lemma_pair_roundtrip, optional_bare_ok, pairs_of, attest_wire_safe, challenge_wire_safe, lemma_attest_roundtrip, lemma_challenge_roundtrip,
    lemma_replay_roundtrip, lemma_response_roundtrip, lemma_self_roundtrip, lemma_vouch_roundtrip,
    replay_wire_safe, response_wire_safe, self_wire_safe, vouch_wire_safe, lemma_join_front, lemma_trim_unchanged, item_ok, lemma_fold_trim_eq, lemma_join_push, lemma_self_line_of, lemma_split_tail,
    self_line_of,
};
use crate::text::{
    digit_value, is_digit, parse_u8_text, scan_digits, IntErrorKind, find_from, lemma_find_exact, lemma_find_from, has_at, lead_nl, trim_start_newlines, in_class, is_ws, lead_ws, lemma_lead_ws_exact, lemma_span_exact, span, trail_ws, trim,
    trim_end, trim_start, u8_text, CharClass,
};
use crate::tokens::{
    challenge_from_pairs, response_from_pairs, tagged_pairs, attest_line_token, challenge_line_token, fold_segments, more_segments, replay_line_token,
    response_line_token, segments_at, self_line_token, vouch_line_token,
};
use crate::types::{
    AgentLinkModel, result_text, SelfTokenModel, AttestTokenModel, ChallengeTokenModel, ReplayFieldsModel, ResponseTokenModel,
    VouchTokenModel,
};

verus! {

// ── The writers ──────────────────────────────────────────────────────────────

/// ` | key=value` where the value is present, nothing where it is absent.
pub open spec fn opt_text(key: Seq<char>, v: Option<Seq<char>>) -> Seq<char> {
    match v {
        Some(x) => " | "@ + key + "="@ + x,
        None => seq![],
    }
}

/// ` | key="value"` where the value is present, nothing where it is absent.
pub open spec fn opt_quoted_text(key: Seq<char>, v: Option<Seq<char>>) -> Seq<char> {
    match v {
        Some(x) => " | "@ + key + "=\""@ + x + "\""@,
        None => seq![],
    }
}

proof fn lemma_fields_push(a: Seq<WireField>, f: WireField)
    requires
        a.len() >= 1,
    ensures
        fields_text(a.push(f)) == fields_text(a) + " | "@ + render(f),
        fields_text(a + seq![f]) == fields_text(a) + " | "@ + render(f),
{
    lemma_rendered_push(a, f);
    lemma_join_push(rendered(a), render(f), " | "@);
    assert(a + seq![f] =~= a.push(f));
}

proof fn lemma_fields_one(f: WireField)
    ensures
        fields_text(seq![f]) == render(f),
{
    assert(rendered(seq![f]) =~= seq![render(f)]);
}

proof fn lemma_fields_opt(a: Seq<WireField>, key: Seq<char>, v: Option<Seq<char>>)
    requires
        a.len() >= 1,
    ensures
        fields_text(a + optional_bare(key, v)) == fields_text(a) + opt_text(key, v),
        fields_text(a + optional_quoted(key, v)) == fields_text(a) + opt_quoted_text(key, v),
{
    reveal_strlit("=");
    reveal_strlit("\"");
    reveal_strlit("=\"");
    match v {
        Some(x) => {
            lemma_fields_push(a, WireField { key, value: x, quoted: false });
            lemma_fields_push(a, WireField { key, value: x, quoted: true });
            assert(fields_text(a) + " | "@ + (key + "="@ + x) =~= fields_text(a) + opt_text(key, v));
            assert(fields_text(a) + " | "@ + (key + "="@ + "\""@ + x + "\""@) =~= fields_text(a)
                + opt_quoted_text(key, v));
        },
        None => {
            assert(a + optional_bare(key, v) =~= a);
            assert(a + optional_quoted(key, v) =~= a);
            assert(fields_text(a) + opt_text(key, v) =~= fields_text(a));
        },
    }
}

/// `emit_response` writes every field as it is: the identifiers bare, the body
/// verbatim between quotes, and the signature last where there is one. This
/// holds of every token, whatever its fields contain.
#[verifier::spinoff_prover]
pub proof fn lemma_response_line_text(t: ResponseTokenModel)
    ensures
        response_line(t) == "MINISKILL-RESPONSE: challenge-id="@ + t.challenge_id
            + " | respondent="@ + t.respondent + " | body=\""@ + t.body + "\""@ + opt_text(
            "sig"@,
            t.sig,
        ),
{
    reveal_strlit("MINISKILL-RESPONSE: challenge-id=");
    reveal_strlit("MINISKILL-RESPONSE: ");
    reveal_strlit(" | respondent=");
    reveal_strlit(" | body=\"");
    reveal_strlit("challenge-id");
    reveal_strlit("respondent");
    reveal_strlit("body");
    reveal_strlit(" | ");
    reveal_strlit("=");
    reveal_strlit("\"");
    let f0 = WireField { key: "challenge-id"@, value: t.challenge_id, quoted: false };
    let f1 = WireField { key: "respondent"@, value: t.respondent, quoted: false };
    let f2 = WireField { key: "body"@, value: t.body, quoted: true };
    let b = seq![f0, f1, f2];
    assert(b =~= seq![f0].push(f1).push(f2));
    assert(seq![f0].push(f1) =~= seq![f0, f1]);
    lemma_fields_one(f0);
    lemma_fields_push(seq![f0], f1);
    lemma_fields_push(seq![f0, f1], f2);
    lemma_fields_opt(b, "sig"@, t.sig);
    assert(response_wire_fields(t) == b + optional_bare("sig"@, t.sig));
    assert(response_line(t) =~= "MINISKILL-RESPONSE: challenge-id="@ + t.challenge_id
        + " | respondent="@ + t.respondent + " | body=\""@ + t.body + "\""@ + opt_text(
        "sig"@,
        t.sig,
    ));
}

proof fn lemma_bare_step(x: Seq<char>, key: Seq<char>, v: Seq<char>, lit: Seq<char>)
    requires
        lit == " | "@ + key + "="@,
    ensures
        x + " | "@ + render(WireField { key, value: v, quoted: false }) == x + lit + v,
{
    assert(x + " | "@ + (key + "="@ + v) =~= x + lit + v);
}

proof fn lemma_bare_first(key: Seq<char>, v: Seq<char>, lit: Seq<char>)
    requires
        lit == key + "="@,
    ensures
        render(WireField { key, value: v, quoted: false }) == lit + v,
{
}

/// `emit_attest` writes every field as it is, in the fixed order, the optional
/// ones only where present. This holds of every token.
#[verifier::spinoff_prover]
pub proof fn lemma_attest_line_text(t: AttestTokenModel)
    ensures
        attest_line(t) == "MINISKILL-ATTEST: "@ + ("topic="@ + t.topic + " | version="@ + t.version
            + " | model="@ + t.model + " | ct-required="@ + u8_text(t.ct_required)
            + " | ct-claimed="@ + u8_text(t.ct_claimed) + " | result="@ + result_text(t.result)
            + opt_text("proof-system"@, t.proof_system) + opt_text("proof"@, t.proof) + opt_text(
            "vk-hash"@,
            t.vk_hash,
        ) + opt_text("sig"@, t.sig)),
{
    reveal_strlit("topic=");
    reveal_strlit(" | version=");
    reveal_strlit(" | model=");
    reveal_strlit(" | ct-required=");
    reveal_strlit(" | ct-claimed=");
    reveal_strlit(" | result=");
    reveal_strlit("topic");
    reveal_strlit("version");
    reveal_strlit("model");
    reveal_strlit("ct-required");
    reveal_strlit("ct-claimed");
    reveal_strlit("result");
    reveal_strlit(" | ");
    reveal_strlit("=");
    assert("topic="@ =~= "topic"@ + "="@);
    assert(" | version="@ =~= " | "@ + "version"@ + "="@);
    assert(" | model="@ =~= " | "@ + "model"@ + "="@);
    assert(" | ct-required="@ =~= " | "@ + "ct-required"@ + "="@);
    assert(" | ct-claimed="@ =~= " | "@ + "ct-claimed"@ + "="@);
    assert(" | result="@ =~= " | "@ + "result"@ + "="@);
    let f0 = WireField { key: "topic"@, value: t.topic, quoted: false };
    let f1 = WireField { key: "version"@, value: t.version, quoted: false };
    let f2 = WireField { key: "model"@, value: t.model, quoted: false };
    let f3 = WireField { key: "ct-required"@, value: u8_text(t.ct_required), quoted: false };
    let f4 = WireField { key: "ct-claimed"@, value: u8_text(t.ct_claimed), quoted: false };
    let f5 = WireField { key: "result"@, value: result_text(t.result), quoted: false };
    let a1 = seq![f0];
    let a2 = a1.push(f1);
    let a3 = a2.push(f2);
    let a4 = a3.push(f3);
    let a5 = a4.push(f4);
    let a6 = a5.push(f5);
    assert(a6 =~= seq![f0, f1, f2, f3, f4, f5]);
    lemma_fields_one(f0);
    lemma_bare_first("topic"@, t.topic, "topic="@);
    lemma_fields_push(a1, f1);
    lemma_bare_step(fields_text(a1), "version"@, t.version, " | version="@);
    lemma_fields_push(a2, f2);
    lemma_bare_step(fields_text(a2), "model"@, t.model, " | model="@);
    lemma_fields_push(a3, f3);
    lemma_bare_step(fields_text(a3), "ct-required"@, u8_text(t.ct_required), " | ct-required="@);
    lemma_fields_push(a4, f4);
    lemma_bare_step(fields_text(a4), "ct-claimed"@, u8_text(t.ct_claimed), " | ct-claimed="@);
    lemma_fields_push(a5, f5);
    lemma_bare_step(fields_text(a5), "result"@, result_text(t.result), " | result="@);
    let o1 = a6 + optional_bare("proof-system"@, t.proof_system);
    let o2 = o1 + optional_bare("proof"@, t.proof);
    let o3 = o2 + optional_bare("vk-hash"@, t.vk_hash);
    lemma_fields_opt(a6, "proof-system"@, t.proof_system);
    lemma_fields_opt(o1, "proof"@, t.proof);
    lemma_fields_opt(o2, "vk-hash"@, t.vk_hash);
    lemma_fields_opt(o3, "sig"@, t.sig);
    assert(attest_wire_fields(t) == o3 + optional_bare("sig"@, t.sig));
}

/// `emit_vouch` writes every field as it is, the reason verbatim between
/// quotes where there is one. This holds of every token.
#[verifier::spinoff_prover]
pub proof fn lemma_vouch_line_text(t: VouchTokenModel)
    ensures
        vouch_line(t) == "MINISKILL-VOUCH: topic="@ + t.topic + " | version="@ + t.version
            + " | vouching-for="@ + t.vouching_for + opt_quoted_text("reason"@, t.reason)
            + " | sig="@ + t.sig,
{
    reveal_strlit("MINISKILL-VOUCH: topic=");
    reveal_strlit("MINISKILL-VOUCH: ");
    reveal_strlit(" | version=");
    reveal_strlit(" | vouching-for=");
    reveal_strlit(" | sig=");
    reveal_strlit("topic");
    reveal_strlit("version");
    reveal_strlit("vouching-for");
    reveal_strlit("sig");
    reveal_strlit(" | ");
    reveal_strlit("=");
    let f0 = WireField { key: "topic"@, value: t.topic, quoted: false };
    let f1 = WireField { key: "version"@, value: t.version, quoted: false };
    let f2 = WireField { key: "vouching-for"@, value: t.vouching_for, quoted: false };
    let fs = WireField { key: "sig"@, value: t.sig, quoted: false };
    let a1 = seq![f0];
    let a2 = a1.push(f1);
    let a3 = a2.push(f2);
    assert(a3 =~= seq![f0, f1, f2]);
    lemma_fields_one(f0);
    lemma_fields_push(a1, f1);
    lemma_fields_push(a2, f2);
    let o1 = a3 + optional_quoted("reason"@, t.reason);
    lemma_fields_opt(a3, "reason"@, t.reason);
    lemma_fields_push(o1, fs);
    assert(vouch_wire_fields(t) == o1 + seq![fs]);
    assert(vouch_line(t) =~= "MINISKILL-VOUCH: topic="@ + t.topic + " | version="@ + t.version
        + " | vouching-for="@ + t.vouching_for + opt_quoted_text("reason"@, t.reason)
        + " | sig="@ + t.sig);
}

/// `emit_replay_fields` writes every field as it is, in the fixed order, the
/// optional ones only where present. This holds of every value.
#[verifier::spinoff_prover]
pub proof fn lemma_replay_line_text(t: ReplayFieldsModel)
    ensures
        replay_line(t) == "MINISKILL-REPLAY: "@ + ("topic="@ + t.topic + " | ct-required="@
            + u8_text(t.ct_required) + " | ct-claimed="@ + u8_text(t.ct_claimed) + opt_text(
            "probe-score"@,
            t.probe_score,
        ) + opt_text("threshold"@, t.threshold) + " | result="@ + result_text(t.result) + opt_text(
            "enforcer"@,
            t.enforcer,
        )),
{
    reveal_strlit("topic=");
    reveal_strlit(" | ct-required=");
    reveal_strlit(" | ct-claimed=");
    reveal_strlit(" | result=");
    reveal_strlit("topic");
    reveal_strlit("ct-required");
    reveal_strlit("ct-claimed");
    reveal_strlit("result");
    reveal_strlit(" | ");
    reveal_strlit("=");
    assert("topic="@ =~= "topic"@ + "="@);
    assert(" | ct-required="@ =~= " | "@ + "ct-required"@ + "="@);
    assert(" | ct-claimed="@ =~= " | "@ + "ct-claimed"@ + "="@);
    assert(" | result="@ =~= " | "@ + "result"@ + "="@);
    let f0 = WireField { key: "topic"@, value: t.topic, quoted: false };
    let f1 = WireField { key: "ct-required"@, value: u8_text(t.ct_required), quoted: false };
    let f2 = WireField { key: "ct-claimed"@, value: u8_text(t.ct_claimed), quoted: false };
    let fr = WireField { key: "result"@, value: result_text(t.result), quoted: false };
    let a1 = seq![f0];
    let a2 = a1.push(f1);
    let a3 = a2.push(f2);
    assert(a3 =~= seq![f0, f1, f2]);
    lemma_fields_one(f0);
    lemma_bare_first("topic"@, t.topic, "topic="@);
    lemma_fields_push(a1, f1);
    lemma_bare_step(fields_text(a1), "ct-required"@, u8_text(t.ct_required), " | ct-required="@);
    lemma_fields_push(a2, f2);
    lemma_bare_step(fields_text(a2), "ct-claimed"@, u8_text(t.ct_claimed), " | ct-claimed="@);
    let o1 = a3 + optional_bare("probe-score"@, t.probe_score);
    let o2 = o1 + optional_bare("threshold"@, t.threshold);
    let o3 = o2 + seq![fr];
    lemma_fields_opt(a3, "probe-score"@, t.probe_score);
    lemma_fields_opt(o1, "threshold"@, t.threshold);
    lemma_fields_push(o2, fr);
    lemma_bare_step(fields_text(o2), "result"@, result_text(t.result), " | result="@);
    lemma_fields_opt(o3, "enforcer"@, t.enforcer);
    assert(replay_wire_fields(t) == o3 + optional_bare("enforcer"@, t.enforcer));
}

/// `emit_challenge` writes every field as it is, the prompt verbatim between
/// quotes and last. This holds of every token.
#[verifier::spinoff_prover]
pub proof fn lemma_challenge_line_text(t: ChallengeTokenModel)
    ensures
        challenge_line(t) == "MINISKILL-CHALLENGE: topic="@ + t.topic + " | challenge-id="@
            + t.challenge_id + opt_text("source"@, t.source) + " | prompt=\""@ + t.prompt + "\""@,
{
    reveal_strlit("MINISKILL-CHALLENGE: topic=");
    reveal_strlit("MINISKILL-CHALLENGE: ");
    reveal_strlit(" | challenge-id=");
    reveal_strlit(" | prompt=\"");
    reveal_strlit("topic");
    reveal_strlit("challenge-id");
    reveal_strlit("prompt");
    reveal_strlit(" | ");
    reveal_strlit("=");
    reveal_strlit("\"");
    let f0 = WireField { key: "topic"@, value: t.topic, quoted: false };
    let f1 = WireField { key: "challenge-id"@, value: t.challenge_id, quoted: false };
    let fp = WireField { key: "prompt"@, value: t.prompt, quoted: true };
    let a1 = seq![f0];
    let a2 = a1.push(f1);
    assert(a2 =~= seq![f0, f1]);
    lemma_fields_one(f0);
    lemma_fields_push(a1, f1);
    let o1 = a2 + optional_bare("source"@, t.source);
    lemma_fields_opt(a2, "source"@, t.source);
    lemma_fields_push(o1, fp);
    assert(challenge_wire_fields(t) == o1 + seq![fp]);
    assert(challenge_line(t) =~= "MINISKILL-CHALLENGE: topic="@ + t.topic + " | challenge-id="@
        + t.challenge_id + opt_text("source"@, t.source) + " | prompt=\""@ + t.prompt + "\""@);
}

// ── Whitespace around a piece of text ────────────────────────────────────────

/// Every character of `w` is whitespace.
pub open spec fn all_ws(w: Seq<char>) -> bool {
    forall|k: int| 0 <= k < w.len() ==> is_ws(#[trigger] w[k])
}

/// Every character of `b` is a space or a tab.
pub open spec fn blanks(b: Seq<char>) -> bool {
    forall|k: int| 0 <= k < b.len() ==> (#[trigger] b[k] == ' ' || b[k] == '\t')
}

/// `x` neither starts nor ends with whitespace.
pub open spec fn trimmed(x: Seq<char>) -> bool {
    x.len() == 0 || (!is_ws(x[0]) && !is_ws(x.last()))
}

proof fn lemma_trail_ws_append(x: Seq<char>, w: Seq<char>)
    requires
        all_ws(w),
    ensures
        trail_ws(x + w) == trail_ws(x) + w.len(),
    decreases w.len(),
{
    if w.len() == 0 {
        assert(x + w =~= x);
    } else {
        let w2 = w.drop_last();
        assert((x + w).last() == w.last());
        assert(is_ws(w[w.len() - 1]));
        assert((x + w).drop_last() =~= x + w2);
        assert forall|k: int| 0 <= k < w2.len() implies is_ws(#[trigger] w2[k]) by {
            assert(w2[k] == w[k]);
        }
        lemma_trail_ws_append(x, w2);
    }
}

/// Whitespace after a piece that starts with a non-whitespace character is
/// removed by `trim`.
proof fn lemma_trim_append_ws(x: Seq<char>, w: Seq<char>)
    requires
        x.len() > 0,
        !is_ws(x[0]),
        all_ws(w),
    ensures
        trim(x + w) == trim(x),
{
    lemma_lead_ws_exact(x, 0);
    assert((x + w)[0] == x[0]);
    lemma_lead_ws_exact(x + w, 0);
    assert(trim_start(x) =~= x);
    assert(trim_start(x + w) =~= x + w);
    lemma_trail_ws_append(x, w);
    crate::text::lemma_trail_ws_bound(x);
    assert(trim_end(x + w) =~= trim_end(x));
}

// ── SELF segments and the blanks around `|` ──────────────────────────────────

/// The segments joined by `|`, with the blanks `lb[j]` before and `rb[j]` after
/// the `j`-th `|`.
pub open spec fn piped(items: Seq<Seq<char>>, lb: Seq<Seq<char>>, rb: Seq<Seq<char>>) -> Seq<char>
    decreases items.len(),
{
    if items.len() <= 1 {
        if items.len() == 1 {
            items[0]
        } else {
            seq![]
        }
    } else {
        items[0] + (lb[0] + ("|"@ + (rb[0] + piped(items.drop_first(), lb.drop_first(), rb.drop_first()))))
    }
}

/// The segments as the reader takes them from a piped line: each one but the
/// last keeps the blanks that stand before its `|`.
pub open spec fn piped_raws(items: Seq<Seq<char>>, lb: Seq<Seq<char>>) -> Seq<Seq<char>> {
    Seq::new(
        items.len(),
        |j: int|
            if j + 1 < items.len() {
                items[j] + lb[j]
            } else {
                items[j]
            },
    )
}

#[verifier::spinoff_prover]
proof fn lemma_piped_segments(
    s: Seq<char>,
    i: int,
    items: Seq<Seq<char>>,
    lb: Seq<Seq<char>>,
    rb: Seq<Seq<char>>,
)
    requires
        0 <= i <= s.len(),
        items.len() >= 1,
        lb.len() + 1 == items.len(),
        rb.len() + 1 == items.len(),
        forall|j: int| 0 <= j < items.len() ==> item_ok(#[trigger] items[j]),
        forall|j: int| 0 <= j < lb.len() ==> blanks(#[trigger] lb[j]),
        forall|j: int| 0 <= j < rb.len() ==> blanks(#[trigger] rb[j]),
        s.subrange(i, s.len() as int) == piped(items, lb, rb),
    ensures
        segments_at(s, i) == Some((piped_raws(items, lb), s.len() as int)),
    decreases items.len(),
{
    reveal_strlit("|");
    let x = items[0];
    assert(item_ok(x));
    if items.len() == 1 {
        let m = i + x.len();
        assert(s.subrange(i, s.len() as int) == x);
        assert forall|j: int| i <= j < m implies in_class(CharClass::Segment, #[trigger] s[j]) by {
            assert(s.subrange(i, s.len() as int)[j - i] == s[j]);
        }
        lemma_span_exact(s, i, m, CharClass::Segment);
        assert(s.subrange(i, m) =~= x);
        lemma_span_exact(s, m, m, CharClass::Blank);
        assert(piped_raws(items, lb) =~= seq![x]);
    } else {
        let l0 = lb[0];
        let r0 = rb[0];
        let rest = items.drop_first();
        let lr = lb.drop_first();
        let rr = rb.drop_first();
        let p = piped(rest, lr, rr);
        assert(blanks(l0) && blanks(r0));
        lemma_split_tail(s, i, x, l0 + ("|"@ + (r0 + p)));
        let a = i + x.len();
        lemma_split_tail(s, a, l0, "|"@ + (r0 + p));
        let m = a + l0.len();
        lemma_split_tail(s, m, "|"@, r0 + p);
        lemma_split_tail(s, m + 1, r0, p);
        let j = m + 1 + r0.len();
        assert(("|"@)[0] == '|');
        assert(s[m + 0] == ("|"@)[0]);
        assert(s[m] == '|');
        assert forall|k: int| i <= k < m implies in_class(CharClass::Segment, #[trigger] s[k]) by {
            if k < a {
                assert(s[i + (k - i)] == x[k - i]);
            } else {
                assert(s[a + (k - a)] == l0[k - a]);
            }
        }
        lemma_span_exact(s, i, m, CharClass::Segment);
        lemma_span_exact(s, m, m, CharClass::Blank);
        assert forall|k: int| m + 1 <= k < j implies in_class(CharClass::Blank, #[trigger] s[k]) by {
            assert(s[(m + 1) + (k - m - 1)] == r0[k - m - 1]);
        }
        assert(item_ok(rest[0]));
        assert(p.len() > 0 && p[0] == rest[0][0]) by {
            if rest.len() >= 2 {
                assert(p == rest[0] + (lr[0] + ("|"@ + (rr[0] + piped(rest.drop_first(), lr.drop_first(), rr.drop_first())))));
            }
        }
        assert(s.subrange(j, s.len() as int)[0] == s[j]);
        assert(!is_ws(s[j]));
        assert(is_ws(' ') && is_ws('\t'));
        lemma_span_exact(s, m + 1, j, CharClass::Blank);
        assert forall|k: int| 0 <= k < rest.len() implies item_ok(#[trigger] rest[k]) by {
            assert(rest[k] == items[k + 1]);
        }
        assert forall|k: int| 0 <= k < lr.len() implies blanks(#[trigger] lr[k]) by {
            assert(lr[k] == lb[k + 1]);
        }
        assert forall|k: int| 0 <= k < rr.len() implies blanks(#[trigger] rr[k]) by {
            assert(rr[k] == rb[k + 1]);
        }
        lemma_piped_segments(s, j, rest, lr, rr);
        assert(s.subrange(i, m) =~= x + l0) by {
            assert forall|k: int| 0 <= k < m - i implies s.subrange(i, m)[k] == (x + l0)[k] by {
                if k < x.len() {
                    assert(s[i + k] == x[k]);
                } else {
                    assert(s[a + (k - x.len())] == l0[k - x.len()]);
                }
            }
        }
        assert(piped_raws(items, lb) =~= seq![x + l0] + piped_raws(rest, lr));
    }
}

/// A SELF line reads the same whatever blanks stand around each `|`: with any
/// runs of spaces and tabs (none included) before and after each separator, it
/// is read to its end as the same token as the line joined with ` | `.
pub proof fn lemma_self_line_blanks(
    b0: Seq<char>,
    items: Seq<Seq<char>>,
    lb: Seq<Seq<char>>,
    rb: Seq<Seq<char>>,
)
    requires
        items.len() >= 1,
        lb.len() + 1 == items.len(),
        rb.len() + 1 == items.len(),
        forall|j: int| 0 <= j < items.len() ==> item_ok(#[trigger] items[j]),
        blanks(b0),
        forall|j: int| 0 <= j < lb.len() ==> blanks(#[trigger] lb[j]),
        forall|j: int| 0 <= j < rb.len() ==> blanks(#[trigger] rb[j]),
    ensures
        self_line_token("MINISKILL-SELF:"@ + b0 + piped(items, lb, rb)) == Some(
            (("MINISKILL-SELF:"@ + b0 + piped(items, lb, rb)).len() as int, fold_segments(items)),
        ),
        self_line_token(self_line_of(items)) == Some(
            (self_line_of(items).len() as int, fold_segments(items)),
        ),
{
    reveal_strlit("MINISKILL-SELF:");
    let tag = "MINISKILL-SELF:"@;
    let p = piped(items, lb, rb);
    let s = tag + b0 + p;
    assert(s.subrange(0, tag.len() as int) =~= tag);
    assert(s.subrange(0, s.len() as int) =~= tag + (b0 + p));
    lemma_split_tail(s, 0, tag, b0 + p);
    lemma_split_tail(s, tag.len() as int, b0, p);
    let i: int = (tag.len() + b0.len()) as int;
    assert(item_ok(items[0]));
    assert(p.len() > 0 && p[0] == items[0][0]) by {
        if items.len() >= 2 {
            assert(p == items[0] + (lb[0] + ("|"@ + (rb[0] + piped(items.drop_first(), lb.drop_first(), rb.drop_first())))));
        }
    }
    assert(s.subrange(i, s.len() as int)[0] == s[i]);
    assert(is_ws(' ') && is_ws('\t'));
    assert forall|k: int| tag.len() <= k < i implies in_class(CharClass::Blank, #[trigger] s[k]) by {
        assert(s[tag.len() + (k - tag.len())] == b0[k - tag.len()]);
    }
    lemma_span_exact(s, tag.len() as int, i, CharClass::Blank);
    lemma_piped_segments(s, i, items, lb, rb);
    let raws = piped_raws(items, lb);
    assert forall|j: int| 0 <= j < raws.len() implies trim(#[trigger] raws[j]) == trim(items[j]) by {
        assert(item_ok(items[j]));
        if j + 1 < items.len() {
            assert(blanks(lb[j]));
            assert(all_ws(lb[j])) by {
                assert forall|k: int| 0 <= k < lb[j].len() implies is_ws(#[trigger] lb[j][k]) by {
                    assert(lb[j][k] == ' ' || lb[j][k] == '\t');
                }
            }
            lemma_trim_append_ws(items[j], lb[j]);
        }
    }
    lemma_fold_trim_eq(raws, items);
    lemma_self_line_of(items);
}

// ── Scope globs ──────────────────────────────────────────────────────────────

/// A glob that stands in a scope list as it is: nonempty, free of `,`, a space
/// and `>`, and without whitespace at either end.
pub open spec fn glob_ok(g: Seq<char>) -> bool {
    &&& g.len() > 0
    &&& forall|k: int| 0 <= k < g.len() ==> #[trigger] g[k] != ',' && g[k] != ' ' && g[k] != '>'
    &&& !is_ws(g[0])
    &&& !is_ws(g.last())
}

proof fn lemma_glob_end_exact(s: Seq<char>, i: int, j: int)
    requires
        0 <= i <= j < s.len(),
        forall|k: int| i <= k < j ==> #[trigger] s[k] != ',' && s[k] != ' ' && s[k] != '>',
        s[j] == ',' || s[j] == ' ',
    ensures
        glob_end(s, i) == j,
    decreases j - i,
{
    reveal_strlit("-->");
    if i < j {
        if has_at(s, i, "-->"@) {
            assert(s.subrange(i, i + 3)[1] == s[i + 1]);
            assert(s.subrange(i, i + 3)[2] == s[i + 2]);
            assert(("-->"@)[1] == '-' && ("-->"@)[2] == '>');
            assert(false);
        }
        lemma_glob_end_exact(s, i + 1, j);
    }
}

#[verifier::spinoff_prover]
proof fn lemma_more_globs_list(s: Seq<char>, e: int, rest: Seq<Seq<char>>, z: int)
    requires
        0 <= e <= z < s.len(),
        s[z] == ' ',
        forall|k: int| 0 <= k < rest.len() ==> glob_ok(#[trigger] rest[k]),
        rest.len() == 0 ==> z == e,
        rest.len() > 0 ==> s.subrange(e, z) == ","@ + join(rest, ","@),
    ensures
        more_globs(s, e) == (rest, z),
    decreases rest.len(),
{
    reveal_strlit(",");
    if rest.len() == 0 {
    } else {
        let g = rest[0];
        assert(glob_ok(g));
        let tail = if rest.len() == 1 {
            Seq::<char>::empty()
        } else {
            ","@ + join(rest.drop_first(), ","@)
        };
        if rest.len() == 1 {
            assert(join(rest, ","@) == g);
            assert(g + tail =~= g);
        } else {
            lemma_join_front(rest, ","@);
        }
        let t = s.subrange(e, z);
        assert(t =~= ","@ + (g + tail));
        assert(t.len() == z - e);
        assert((","@ + (g + tail)).len() == 1 + g.len() + tail.len());
        assert(e + 1 + g.len() <= z);
        assert(t[0] == s[e]);
        assert(s[e] == ',');
        let e1 = e + 1 + g.len();
        assert forall|k: int| e + 1 <= k < e1 implies #[trigger] s[k] != ',' && s[k] != ' ' && s[k]
            != '>' by {
            assert(t[k - e] == s[k]);
            assert(t[k - e] == g[k - e - 1]);
        }
        if rest.len() == 1 {
            assert(tail.len() == 0);
            assert(e1 == z);
        } else {
            assert(t[e1 - e] == s[e1]);
            assert(s[e1] == ',');
        }
        lemma_glob_end_exact(s, e + 1, e1);
        assert(s.subrange(e + 1, e1) =~= g) by {
            assert forall|k: int| 0 <= k < g.len() implies s.subrange(e + 1, e1)[k] == g[k] by {
                assert(t[k + 1] == s[e + 1 + k]);
            }
        }
        lemma_trim_unchanged(g);
        let r2 = rest.drop_first();
        assert forall|k: int| 0 <= k < r2.len() implies glob_ok(#[trigger] r2[k]) by {
            assert(r2[k] == rest[k + 1]);
        }
        if rest.len() >= 2 {
            assert(s.subrange(e1, z) =~= ","@ + join(r2, ","@)) by {
                assert forall|k: int| 0 <= k < z - e1 implies s.subrange(e1, z)[k] == (","@ + join(
                    r2,
                    ","@,
                ))[k] by {
                    assert(t[e1 - e + k] == s[e1 + k]);
                }
            }
        }
        lemma_more_globs_list(s, e1, r2, z);
        assert(rest =~= seq![g] + r2);
    }
}

/// Every glob of a closed scope comment is in the result, in order: for
/// `<!-- scope=g1,...,gn -->` with globs that stand in the list as they are,
/// the scope is exactly `[g1, ..., gn]`, whatever `n` is and whatever precedes
/// the comment or follows it.
#[verifier::spinoff_prover]
pub proof fn lemma_scope_lists_every_glob(
    pre: Seq<char>,
    globs: Seq<Seq<char>>,
    tail: Seq<char>,
)
    requires
        globs.len() >= 1,
        forall|k: int| 0 <= k < globs.len() ==> glob_ok(#[trigger] globs[k]),
    ensures
        scope_comment_at(
            pre + "<!-- scope="@ + join(globs, ","@) + " -->"@ + tail,
            pre.len() as int,
        ) == Some(globs),
{
    reveal_strlit("<!-- scope=");
    reveal_strlit("<!--");
    reveal_strlit("scope=");
    reveal_strlit(" -->");
    reveal_strlit("-->");
    reveal_strlit(",");
    let a = "<!-- scope="@;
    let j = join(globs, ","@);
    let b = " -->"@;
    let s = pre + a + j + b + tail;
    let f = pre.len() as int;
    assert(s.subrange(f, s.len() as int) =~= a + (j + (b + tail)));
    lemma_split_tail(s, f, a, j + (b + tail));
    let h = f + a.len();
    lemma_split_tail(s, h, j, b + tail);
    let z = h + j.len();
    lemma_split_tail(s, z, b, tail);
    assert(s.subrange(f, f + 4) =~= "<!--"@) by {
        assert forall|k: int| 0 <= k < 4 implies s.subrange(f, f + 4)[k] == ("<!--"@)[k] by {
            assert(s[f + k] == a[k]);
        }
    }
    assert(s[f + 4] == a[4]);
    assert(s[f + 5] == a[5]);
    assert(in_class(CharClass::Blank, s[f + 4]));
    lemma_span_exact(s, f + 4, f + 5, CharClass::Blank);
    assert(s.subrange(f + 5, f + 11) =~= "scope="@) by {
        assert forall|k: int| 0 <= k < 6 implies s.subrange(f + 5, f + 11)[k] == ("scope="@)[k] by {
            assert(s[f + 5 + k] == a[5 + k]);
        }
    }
    assert(s[z + 0] == b[0]);
    assert(s[z] == ' ');
    let g0 = globs[0];
    assert(glob_ok(g0));
    let r = globs.drop_first();
    let e = h + g0.len();
    let rt = if globs.len() == 1 {
        Seq::<char>::empty()
    } else {
        ","@ + join(r, ","@)
    };
    if globs.len() == 1 {
        assert(j == g0);
        assert(g0 + rt =~= g0);
    } else {
        lemma_join_front(globs, ","@);
    }
    assert(j =~= g0 + rt);
    assert forall|k: int| h <= k < e implies #[trigger] s[k] != ',' && s[k] != ' ' && s[k]
        != '>' by {
        assert(s[h + (k - h)] == j[k - h]);
        assert(j[k - h] == g0[k - h]);
    }
    if globs.len() >= 2 {
        assert(s[h + g0.len()] == j[g0.len() as int]);
        assert(j[g0.len() as int] == rt[0]);
    }
    lemma_glob_end_exact(s, h, e);
    assert(s.subrange(h, e) =~= g0) by {
        assert forall|k: int| 0 <= k < g0.len() implies s.subrange(h, e)[k] == g0[k] by {
            assert(s[h + k] == j[k]);
        }
    }
    lemma_trim_unchanged(g0);
    assert forall|k: int| 0 <= k < r.len() implies glob_ok(#[trigger] r[k]) by {
        assert(r[k] == globs[k + 1]);
    }
    if globs.len() >= 2 {
        assert(s.subrange(e, z) =~= rt) by {
            assert forall|k: int| 0 <= k < z - e implies s.subrange(e, z)[k] == rt[k] by {
                assert(s[h + (g0.len() + k)] == j[g0.len() + k]);
            }
        }
    }
    lemma_more_globs_list(s, e, r, z);
    assert(s.subrange(z + 1, z + 4) =~= "-->"@) by {
        assert forall|k: int| 0 <= k < 3 implies s.subrange(z + 1, z + 4)[k] == ("-->"@)[k] by {
            assert(s[z + (1 + k)] == b[1 + k]);
        }
    }
    lemma_find_from(s, z, "-->"@);
    assert(has_at(s, z + 1, "-->"@));
    assert(find_from(s, z, "-->"@) is Some);
    assert(globs =~= seq![g0] + r);
    assert(has_at(s, f, "<!--"@));
    assert(span(s, f + ("<!--"@).len(), CharClass::Blank) == f + 5);
    assert(has_at(s, f + 5, "scope="@));
    assert(f + 5 + ("scope="@).len() == h);
    assert(glob_end(s, h) == e && e != h);
    assert(more_globs(s, e) == (r, z));
}

// ── Front-matter and sections ────────────────────────────────────────────────

proof fn lemma_trail_ws_shape(x: Seq<char>)
    ensures
        trail_ws(x) <= x.len(),
        forall|q: int| x.len() - trail_ws(x) <= q < x.len() ==> is_ws(#[trigger] x[q]),
        trail_ws(x) == x.len() || !is_ws(x[x.len() - trail_ws(x) - 1]),
    decreases x.len(),
{
    if x.len() > 0 && is_ws(x.last()) {
        let y = x.drop_last();
        lemma_trail_ws_shape(y);
        assert forall|q: int| x.len() - trail_ws(x) <= q < x.len() implies is_ws(#[trigger] x[q]) by {
            if q < x.len() - 1 {
                assert(y[q] == x[q]);
            }
        }
        if trail_ws(x) < x.len() {
            assert(y[y.len() - trail_ws(y) - 1] == x[x.len() - trail_ws(x) - 1]);
        }
    }
}

proof fn lemma_lead_ws_shape(x: Seq<char>)
    ensures
        lead_ws(x) <= x.len(),
        forall|q: int| 0 <= q < lead_ws(x) ==> is_ws(#[trigger] x[q]),
        lead_ws(x) == x.len() || !is_ws(x[lead_ws(x) as int]),
    decreases x.len(),
{
    if x.len() > 0 && is_ws(x[0]) {
        let y = x.drop_first();
        lemma_lead_ws_shape(y);
        assert forall|q: int| 0 <= q < lead_ws(x) implies is_ws(#[trigger] x[q]) by {
            if q > 0 {
                assert(y[q - 1] == x[q]);
            }
        }
        if lead_ws(x) < x.len() {
            assert(y[lead_ws(y) as int] == x[lead_ws(x) as int]);
        }
    }
}

proof fn lemma_lead_nl_shape(x: Seq<char>)
    ensures
        lead_nl(x) <= x.len(),
        forall|q: int| 0 <= q < lead_nl(x) ==> #[trigger] x[q] == '\n',
    decreases x.len(),
{
    if x.len() > 0 && x[0] == '\n' {
        let y = x.drop_first();
        lemma_lead_nl_shape(y);
        assert forall|q: int| 0 <= q < lead_nl(x) implies #[trigger] x[q] == '\n' by {
            if q > 0 {
                assert(y[q - 1] == x[q]);
            }
        }
    }
}

/// Where `trim` cuts `x`: the kept part is `x[a..b]`, all before it and all
/// after it is whitespace, and the kept part is itself trimmed.
proof fn lemma_trim_shape(x: Seq<char>) -> (r: (int, int))
    ensures
        0 <= r.0 <= r.1 <= x.len(),
        trim(x) == x.subrange(r.0, r.1),
        forall|q: int| 0 <= q < r.0 ==> is_ws(#[trigger] x[q]),
        forall|q: int| r.1 <= q < x.len() ==> is_ws(#[trigger] x[q]),
        trimmed(trim(x)),
{
    lemma_lead_ws_shape(x);
    let a = lead_ws(x) as int;
    let t = trim_start(x);
    assert(t =~= x.subrange(a, x.len() as int));
    lemma_trail_ws_shape(t);
    let b = x.len() - trail_ws(t);
    assert(trim(x) =~= x.subrange(a, b));
    assert forall|q: int| b <= q < x.len() implies is_ws(#[trigger] x[q]) by {
        assert(t[q - a] == x[q]);
    }
    if a < b {
        assert(trim(x)[0] == x[a]);
        assert(trim(x).last() == t[t.len() - trail_ws(t) - 1]);
    }
    (a, b)
}

/// The front-matter is found exactly when the text opens with `---` and a
/// newline and holds a later `---`. Then the text is the opener, the YAML,
/// nothing but whitespace, the first `---` after the opener, and the rest: the
/// YAML is all of the text up to that `---` but its trailing whitespace.
#[verifier::spinoff_prover]
pub proof fn lemma_frontmatter_shape(s: Seq<char>)
    ensures
        (frontmatter(s) is Ok) <==> (has_at(s, 0, "---\n"@) && exists|j: int|
            4 <= j && #[trigger] has_at(s, j, "---"@)),
        frontmatter(s) matches Ok((rest, yaml)) ==> ({
            let k = s.len() - rest.len() - 3;
            &&& 4 + yaml.len() <= k
            &&& has_at(s, 0, "---\n"@)
            &&& s.subrange(4, 4 + yaml.len() as int) == yaml
            &&& (forall|q: int| 4 + yaml.len() <= q < k ==> is_ws(#[trigger] s[q]))
            &&& (yaml.len() == 0 || !is_ws(yaml.last()))
            &&& has_at(s, k, "---"@)
            &&& s.skip(k + 3) == rest
            &&& forall|q: int| 4 <= q < k ==> !#[trigger] has_at(s, q, "---"@)
        }),
{
    reveal_strlit("---");
    reveal_strlit("---\n");
    let m = "---"@;
    let opener = has_at(s, 0, m) && 3 < s.len() && s[3] == '\n';
    if has_at(s, 0, "---\n"@) {
        assert forall|k: int| 0 <= k < 4 implies s[k] == ("---\n"@)[k] by {
            assert(s.subrange(0, 4)[k] == s[k]);
        }
        assert(s.subrange(0, 3) =~= "---"@);
    }
    if opener {
        assert forall|k: int| 0 <= k < 3 implies s[k] == ("---"@)[k] by {
            assert(s.subrange(0, 3)[k] == s[k]);
        }
        assert(s.subrange(0, 4) =~= "---\n"@);
    }
    assert(has_at(s, 0, "---\n"@) <==> opener);
    lemma_find_from(s, 4, m);
    if opener {
        match find_from(s, 4, m) {
            Some(k) => {
                let x = s.subrange(4, k);
                lemma_trail_ws_shape(x);
                let yaml = trim_end(x);
                let n = x.len() - trail_ws(x);
                assert(yaml =~= s.subrange(4, 4 + n));
                assert forall|q: int| 4 + n <= q < k implies is_ws(#[trigger] s[q]) by {
                    assert(x[q - 4] == s[q]);
                }
                if n > 0 {
                    assert(yaml.last() == x[x.len() - trail_ws(x) - 1]);
                }
                assert(s.len() - s.skip(k + 3).len() - 3 == k);
            },
            None => {},
        }
    }
}

/// The skill and gate sections are found exactly when the text holds
/// `---gate---`. Then the text is whitespace, the skill section, whitespace, the
/// first `---gate---`, whitespace, the section after it, and whitespace: each
/// section is all of the text on its side of the delimiter but the whitespace
/// around it. The result gives where the skill section, the delimiter and the
/// gate section start.
#[verifier::spinoff_prover]
pub proof fn lemma_sections_shape(rest: Seq<char>) -> (pos: (int, int, int))
    ensures
        (sections(rest) is Some) <==> exists|p: int| 0 <= p && #[trigger] has_at(
            rest,
            p,
            "---gate---"@,
        ),
        sections(rest) matches Some((skill, gate)) ==> ({
            let (i, p, j) = pos;
            &&& 0 <= i && i + skill.len() <= p && p + 10 <= j && j + gate.len() <= rest.len()
            &&& (forall|q: int| 0 <= q < i ==> is_ws(#[trigger] rest[q]))
            &&& rest.subrange(i, i + skill.len()) == skill
            &&& (forall|q: int| i + skill.len() <= q < p ==> is_ws(#[trigger] rest[q]))
            &&& has_at(rest, p, "---gate---"@)
            &&& (forall|q: int| 0 <= q < p ==> !#[trigger] has_at(rest, q, "---gate---"@))
            &&& (forall|q: int| p + 10 <= q < j ==> is_ws(#[trigger] rest[q]))
            &&& rest.subrange(j, j + gate.len()) == gate
            &&& (forall|q: int| j + gate.len() <= q < rest.len() ==> is_ws(#[trigger] rest[q]))
            &&& trimmed(skill)
            &&& trimmed(gate)
        }),
{
    reveal_strlit("---gate---");
    let d = "---gate---"@;
    lemma_lead_nl_shape(rest);
    let n = lead_nl(rest) as int;
    let body = trim_start_newlines(rest);
    assert(body =~= rest.subrange(n, rest.len() as int));
    assert(is_ws('\n'));
    assert(d[0] == '-');
    // An occurrence in `rest` is an occurrence in `body`, shifted by `n`.
    assert forall|q: int| 0 <= q < n implies !#[trigger] has_at(rest, q, d) by {
        if has_at(rest, q, d) {
            assert(rest.subrange(q, q + 10)[0] == rest[q]);
        }
    }
    assert forall|q: int| n <= q implies has_at(rest, q, d) == #[trigger] has_at(body, q - n, d) by {
        if q + 10 <= rest.len() {
            assert(rest.subrange(q, q + 10) =~= body.subrange(q - n, q - n + 10));
        }
    }
    lemma_find_from(body, 0, d);
    match find_from(body, 0, d) {
        None => {
            assert forall|p: int| 0 <= p implies !#[trigger] has_at(rest, p, d) by {
                if n <= p {
                    assert(!has_at(body, p - n, d));
                }
            }
            (0, 0, 0)
        },
        Some(pb) => {
            let p = n + pb;
            assert(has_at(body, pb, d));
            assert(rest.subrange(p, p + 10) =~= body.subrange(pb, pb + 10));
            assert(has_at(rest, p, d));
            assert forall|q: int| 0 <= q < p implies !#[trigger] has_at(rest, q, d) by {
                if n <= q {
                    assert(!has_at(body, q - n, d));
                }
            }
            // The skill side.
            let x = body.take(pb);
            lemma_trail_ws_shape(x);
            let sk0 = trim_end(x);
            let nx = x.len() - trail_ws(x);
            assert(sk0 =~= rest.subrange(n, n + nx));
            let (a1, b1) = lemma_trim_shape(sk0);
            let skill = trim(sk0);
            let i = n + a1;
            assert(skill =~= rest.subrange(i, n + b1));
            assert forall|q: int| 0 <= q < i implies is_ws(#[trigger] rest[q]) by {
                if q >= n {
                    assert(sk0[q - n] == rest[q]);
                }
            }
            assert forall|q: int| i + skill.len() <= q < p implies is_ws(#[trigger] rest[q]) by {
                if q < n + nx {
                    assert(sk0[q - n] == rest[q]);
                } else {
                    assert(x[q - n] == rest[q]);
                }
            }
            // After the delimiter.
            let y = body.skip(pb + 10);
            lemma_lead_nl_shape(y);
            let c = lead_nl(y) as int;
            let g0 = trim_start_newlines(y);
            assert(g0 =~= rest.subrange(p + 10 + c, rest.len() as int));
            let (a2, b2) = lemma_trim_shape(g0);
            let gate = trim(g0);
            let j = p + 10 + c + a2;
            assert(gate =~= rest.subrange(j, p + 10 + c + b2));
            assert forall|q: int| p + 10 <= q < j implies is_ws(#[trigger] rest[q]) by {
                if q < p + 10 + c {
                    assert(y[q - p - 10] == rest[q]);
                } else {
                    assert(g0[q - p - 10 - c] == rest[q]);
                }
            }
            assert forall|q: int| j + gate.len() <= q < rest.len() implies is_ws(#[trigger] rest[q]) by {
                assert(g0[q - p - 10 - c] == rest[q]);
            }
            assert(gate_split(body) == Some((sk0, g0)));
            (i, p, j)
        },
    }
}

// ── Reading the written text ─────────────────────────────────────────────────

/// `emit_self` writes the model, the self-assessed tier and the topic, then the
/// version and the AI key where present, each after its keyword.
pub proof fn lemma_self_line_text(t: SelfTokenModel)
    ensures
        self_line(t) == "MINISKILL-SELF: MODEL "@ + t.model_family + " "@ + t.model_version
            + " | CT-SELF "@ + u8_text(t.ct_self) + " | topic "@ + t.topic + (match t.version {
            Some(v) => " | version "@ + v,
            None => seq![],
        }) + (match t.ai_key {
            Some(k) => " | ai-key "@ + k,
            None => seq![],
        }),
{
}

/// A SELF line with these fields, each able to stand on the wire, reads to its
/// end as exactly these fields.
pub proof fn lemma_self_text_reads_back(t: SelfTokenModel)
    requires
        self_wire_safe(t),
    ensures
        ({
            let line = "MINISKILL-SELF: MODEL "@ + t.model_family + " "@ + t.model_version
                + " | CT-SELF "@ + u8_text(t.ct_self) + " | topic "@ + t.topic + (match t.version {
                Some(v) => " | version "@ + v,
                None => seq![],
            }) + (match t.ai_key {
                Some(k) => " | ai-key "@ + k,
                None => seq![],
            });
            self_line_token(line) == Some((line.len() as int, t))
        }),
{
    lemma_self_line_text(t);
    lemma_self_roundtrip(t);
}

/// An ATTEST line with these fields, each able to stand on the wire, reads to
/// its end as exactly these fields.
pub proof fn lemma_attest_text_reads_back(t: AttestTokenModel)
    requires
        attest_wire_safe(t),
    ensures
        ({
            let line = "MINISKILL-ATTEST: "@ + ("topic="@ + t.topic + " | version="@ + t.version
                + " | model="@ + t.model + " | ct-required="@ + u8_text(t.ct_required)
                + " | ct-claimed="@ + u8_text(t.ct_claimed) + " | result="@ + result_text(t.result)
                + opt_text("proof-system"@, t.proof_system) + opt_text("proof"@, t.proof)
                + opt_text("vk-hash"@, t.vk_hash) + opt_text("sig"@, t.sig));
            attest_line_token(line) == Some((line.len() as int, t))
        }),
{
    lemma_attest_line_text(t);
    lemma_attest_roundtrip(t);
}

/// A VOUCH line with these fields, each able to stand on the wire, reads to its
/// end as exactly these fields.
pub proof fn lemma_vouch_text_reads_back(t: VouchTokenModel)
    requires
        vouch_wire_safe(t),
    ensures
        ({
            let line = "MINISKILL-VOUCH: topic="@ + t.topic + " | version="@ + t.version
                + " | vouching-for="@ + t.vouching_for + opt_quoted_text("reason"@, t.reason)
                + " | sig="@ + t.sig;
            vouch_line_token(line) == Some((line.len() as int, t))
        }),
{
    lemma_vouch_line_text(t);
    lemma_vouch_roundtrip(t);
}

/// A REPLAY line with these fields, each able to stand on the wire, reads to
/// its end as exactly these fields.
pub proof fn lemma_replay_text_reads_back(t: ReplayFieldsModel)
    requires
        replay_wire_safe(t),
    ensures
        ({
            let line = "MINISKILL-REPLAY: "@ + ("topic="@ + t.topic + " | ct-required="@ + u8_text(
                t.ct_required,
            ) + " | ct-claimed="@ + u8_text(t.ct_claimed) + opt_text("probe-score"@, t.probe_score)
                + opt_text("threshold"@, t.threshold) + " | result="@ + result_text(t.result)
                + opt_text("enforcer"@, t.enforcer));
            replay_line_token(line) == Some((line.len() as int, t))
        }),
{
    lemma_replay_line_text(t);
    lemma_replay_roundtrip(t);
}

/// A CHALLENGE line with these fields, each able to stand on the wire, reads to
/// its end as exactly these fields.
pub proof fn lemma_challenge_text_reads_back(t: ChallengeTokenModel)
    requires
        challenge_wire_safe(t),
    ensures
        ({
            let line = "MINISKILL-CHALLENGE: topic="@ + t.topic + " | challenge-id="@
                + t.challenge_id + opt_text("source"@, t.source) + " | prompt=\""@ + t.prompt
                + "\""@;
            challenge_line_token(line) == Some((line.len() as int, t))
        }),
{
    lemma_challenge_line_text(t);
    lemma_challenge_roundtrip(t);
}

/// A RESPONSE line with these fields, each able to stand on the wire, reads to
/// its end as exactly these fields.
pub proof fn lemma_response_text_reads_back(t: ResponseTokenModel)
    requires
        response_wire_safe(t),
    ensures
        ({
            let line = "MINISKILL-RESPONSE: challenge-id="@ + t.challenge_id + " | respondent="@
                + t.respondent + " | body=\""@ + t.body + "\""@ + opt_text("sig"@, t.sig);
            response_line_token(line) == Some((line.len() as int, t))
        }),
{
    lemma_response_line_text(t);
    lemma_response_roundtrip(t);
}

proof fn lemma_trimmed_trim(x: Seq<char>)
    requires
        trimmed(x),
    ensures
        trim(x) == x,
{
    if x.len() > 0 {
        lemma_trim_unchanged(x);
    } else {
        assert(trim_start(x) =~= x);
        assert(trim(x) =~= x);
    }
}

proof fn lemma_link_pieces(s: Seq<char>, slug: Seq<char>, path: Seq<char>, tail: Seq<char>)
    requires
        trimmed(slug),
        forall|k: int| 0 <= k < slug.len() ==> #[trigger] slug[k] != ']',
        forall|k: int| 0 <= k < path.len() ==> #[trigger] path[k] != ')',
        tail.len() >= 1,
        tail[0] == '<',
        s == "[miniskill: "@ + slug + "]("@ + path + ") "@ + tail,
    ensures
        has_at(s, 0, "[miniskill:"@),
        span(s, ("[miniskill:"@).len() as int, CharClass::Blank) == 12,
        find_from(s, 12, "]"@) == Some(12int + slug.len()),
        12int + slug.len() + 1 < s.len(),
        s[12int + slug.len() + 1] == '(',
        find_from(s, 12int + slug.len() + 2, ")"@) == Some(14int + slug.len() + path.len()),
        span(s, 14int + slug.len() + path.len() + (")"@).len(), CharClass::Blank) == 16int + slug.len()
            + path.len(),
        s.subrange(12, 12int + slug.len()) == slug,
        s.subrange(14int + slug.len(), 14int + slug.len() + path.len()) == path,
{
    reveal_strlit("[miniskill: ");
    reveal_strlit("[miniskill:");
    reveal_strlit("](");
    reveal_strlit(") ");
    reveal_strlit("]");
    reveal_strlit(")");
    let c1 = "[miniskill: "@;
    let c2 = "]("@;
    let c3 = ") "@;
    assert(s.subrange(0, s.len() as int) =~= c1 + (slug + (c2 + (path + (c3 + tail)))));
    lemma_split_tail(s, 0, c1, slug + (c2 + (path + (c3 + tail))));
    let p1 = c1.len() as int;
    lemma_split_tail(s, p1, slug, c2 + (path + (c3 + tail)));
    let b = p1 + slug.len();
    lemma_split_tail(s, b, c2, path + (c3 + tail));
    let c = b + 1;
    let p2 = b + 2;
    lemma_split_tail(s, p2, path, c3 + tail);
    let d = p2 + path.len();
    lemma_split_tail(s, d, c3, tail);
    assert(s.subrange(0, 11) =~= "[miniskill:"@) by {
        assert forall|k: int| 0 <= k < 11 implies s.subrange(0, 11)[k] == ("[miniskill:"@)[k] by {
            assert(s[0 + k] == c1[k]);
        }
    }
    assert(s[0int + 11] == c1[11]);
    assert(in_class(CharClass::Blank, s[11]));
    if slug.len() > 0 {
        assert(s[p1 + 0] == slug[0]);
        assert(!in_class(CharClass::Blank, s[12])) by {
            assert(is_ws(' ') && is_ws('\t'));
        }
    } else {
        assert(s[b + 0] == c2[0]);
    }
    lemma_span_exact(s, 11, 12, CharClass::Blank);
    assert(s.subrange(b, b + 1) =~= "]"@) by {
        assert(s[b + 0] == c2[0]);
    }
    assert forall|q: int| 12 <= q < b implies !#[trigger] has_at(s, q, "]"@) by {
        assert(s[p1 + (q - p1)] == slug[q - p1]);
        if has_at(s, q, "]"@) {
            assert(s.subrange(q, q + 1)[0] == s[q]);
        }
    }
    lemma_find_exact(s, 12, b, "]"@);
    assert(s[b + 1] == c2[1]);
    assert(s[c] == '(');
    assert(s.subrange(d, d + 1) =~= ")"@) by {
        assert(s[d + 0] == c3[0]);
    }
    assert forall|q: int| c + 1 <= q < d implies !#[trigger] has_at(s, q, ")"@) by {
        assert(s[p2 + (q - p2)] == path[q - p2]);
        if has_at(s, q, ")"@) {
            assert(s.subrange(q, q + 1)[0] == s[q]);
        }
    }
    lemma_find_exact(s, c + 1, d, ")"@);
    assert(s[d + 1] == c3[1]);
    assert(s[d + 2] == tail[0]);
    assert(in_class(CharClass::Blank, s[d + 1]));
    lemma_span_exact(s, d + 1, d + 2, CharClass::Blank);
    assert(s.subrange(12, b) =~= slug) by {
        assert forall|k: int| 0 <= k < slug.len() implies s.subrange(12, b)[k] == slug[k] by {
            assert(s[p1 + k] == slug[k]);
        }
    }
    assert(s.subrange(c + 1, d) =~= path) by {
        assert forall|k: int| 0 <= k < path.len() implies s.subrange(c + 1, d)[k] == path[k] by {
            assert(s[p2 + k] == path[k]);
        }
    }
}

/// A miniskill link line reads as its slug, its path and every glob of its
/// scope comment, in order: for `[miniskill: slug](path) <!-- scope=g1,...,gn -->`
/// whose slug holds no `]`, whose path holds no `)`, and whose globs stand in
/// the list as they are, the link is exactly `slug`, `path` and `[g1, ..., gn]`.
#[verifier::spinoff_prover]
pub proof fn lemma_link_line_reads_back(
    slug: Seq<char>,
    path: Seq<char>,
    globs: Seq<Seq<char>>,
)
    requires
        trimmed(slug),
        forall|k: int| 0 <= k < slug.len() ==> #[trigger] slug[k] != ']',
        trimmed(path),
        forall|k: int| 0 <= k < path.len() ==> #[trigger] path[k] != ')',
        globs.len() >= 1,
        forall|k: int| 0 <= k < globs.len() ==> glob_ok(#[trigger] globs[k]),
    ensures
        agent_link_line(
            "[miniskill: "@ + slug + "]("@ + path + ") <!-- scope="@ + join(globs, ","@)
                + " -->"@,
        ) == Some(AgentLinkModel { slug, path, scope: globs }),
{
    let j = join(globs, ","@);
    let s = "[miniskill: "@ + slug + "]("@ + path + ") <!-- scope="@ + j + " -->"@;
    let pre = "[miniskill: "@ + slug + "]("@ + path + ") "@;
    let tail = "<!-- scope="@ + j + " -->"@;
    assert(s == pre + tail && s == pre + "<!-- scope="@ + j + " -->"@ + Seq::<char>::empty()) by {
        reveal_strlit(") <!-- scope=");
        reveal_strlit(") ");
        reveal_strlit("<!-- scope=");
        assert(s =~= pre + tail);
        assert(s =~= pre + "<!-- scope="@ + j + " -->"@ + Seq::<char>::empty());
    }
    assert(tail.len() >= 1 && tail[0] == '<' && tail.last() == '>') by {
        reveal_strlit("<!-- scope=");
        reveal_strlit(" -->");
        assert(tail[0] == ("<!-- scope="@)[0]);
        assert(tail.last() == (" -->"@).last());
    }
    assert(pre.len() == 16 + slug.len() + path.len()) by {
        reveal_strlit("[miniskill: ");
        reveal_strlit("](");
        reveal_strlit(") ");
    }
    assert(pre[0] == '[') by {
        reveal_strlit("[miniskill: ");
        assert(pre[0] == ("[miniskill: "@)[0]);
    }
    lemma_scope_lists_every_glob(pre, globs, Seq::<char>::empty());
    lemma_link_pieces(s, slug, path, tail);
    lemma_link_trim(s, pre, tail);
    lemma_trimmed_trim(slug);
    lemma_trimmed_trim(path);
    lemma_link_assemble(s, slug, path, globs);
}

proof fn lemma_link_assemble(s: Seq<char>, slug: Seq<char>, path: Seq<char>, globs: Seq<Seq<char>>)
    requires
        trim(s) == s,
        trim(slug) == slug,
        trim(path) == path,
        has_at(s, 0, "[miniskill:"@),
        span(s, ("[miniskill:"@).len() as int, CharClass::Blank) == 12,
        find_from(s, 12, "]"@) == Some(12int + slug.len()),
        12int + slug.len() + 1 < s.len(),
        s[12int + slug.len() + 1] == '(',
        find_from(s, 12int + slug.len() + 2, ")"@) == Some(14int + slug.len() + path.len()),
        span(s, 14int + slug.len() + path.len() + (")"@).len(), CharClass::Blank) == 16int
            + slug.len() + path.len(),
        s.subrange(12, 12int + slug.len()) == slug,
        s.subrange(14int + slug.len(), 14int + slug.len() + path.len()) == path,
        scope_comment_at(s, 16int + slug.len() + path.len()) == Some(globs),
    ensures
        agent_link_line(s) == Some(AgentLinkModel { slug, path, scope: globs }),
{
    reveal_strlit("]");
    reveal_strlit(")");
}

proof fn lemma_link_trim(s: Seq<char>, pre: Seq<char>, tail: Seq<char>)
    requires
        s == pre + tail,
        pre.len() >= 1,
        pre[0] == '[',
        tail.len() >= 1,
        tail.last() == '>',
    ensures
        trim(s) == s,
{
    assert(s[0] == '[');
    assert(s.last() == '>');
    assert(!is_ws('[') && !is_ws('>'));
    lemma_trim_unchanged(s);
}

// ── Errors of the front-matter ───────────────────────────────────────────────

/// Where the front-matter is refused, and as what: a text that does not open
/// with `---` is refused at its start as a missing tag; one whose `---` is not
/// followed by a newline, just after the `---`, as a missing character; one
/// with no closing `---`, just after the opener, as an unfinished search.
pub proof fn lemma_frontmatter_errors(s: Seq<char>)
    ensures
        !has_at(s, 0, "---"@) ==> frontmatter(s) == Err::<(Seq<char>, Seq<char>), Seq<char>>(
            nom_error_text(s, NomErrorKind::Tag),
        ),
        has_at(s, 0, "---"@) && !(s.len() > 3 && s[3] == '\n') ==> frontmatter(s) == Err::<
            (Seq<char>, Seq<char>),
            Seq<char>,
        >(nom_error_text(s.skip(3), NomErrorKind::Char)),
        has_at(s, 0, "---"@) && s.len() > 3 && s[3] == '\n' && (forall|j: int|
            4 <= j ==> !#[trigger] has_at(s, j, "---"@)) ==> frontmatter(s) == Err::<
            (Seq<char>, Seq<char>),
            Seq<char>,
        >(nom_error_text(s.skip(4), NomErrorKind::TakeUntil)),
{
    reveal_strlit("---");
    assert(s.skip(0) =~= s);
    lemma_find_from(s, 4, "---"@);
}

// ── Field lookups ────────────────────────────────────────────────────────────

/// A field's value is that of its last occurrence: a pair added last answers
/// for its key, and leaves every other key as it was; no key is found in an
/// empty list.
pub proof fn lemma_lookup_last_wins(kv: Seq<Pair>, key: Seq<char>, value: Seq<char>, other: Seq<char>)
    ensures
        kv_lookup(kv.push((key, value)), key) == Some(value),
        other != key ==> kv_lookup(kv.push((key, value)), other) == kv_lookup(kv, other),
        kv_lookup(Seq::<Pair>::empty(), key) is None,
{
    assert(kv.push((key, value)).drop_last() =~= kv);
}

// ── Reading a `u8` ───────────────────────────────────────────────────────────

/// The decimal value of the digits `d`, after the value `acc` already read.
pub open spec fn decimal(d: Seq<char>, acc: int) -> int
    decreases d.len(),
{
    if d.len() == 0 {
        acc
    } else {
        decimal(d.drop_first(), acc * 10 + digit_value(d[0]))
    }
}

pub open spec fn all_digits(d: Seq<char>) -> bool {
    forall|k: int| 0 <= k < d.len() ==> is_digit(#[trigger] d[k])
}

proof fn lemma_decimal_ge(d: Seq<char>, acc: int)
    requires
        acc >= 0,
        all_digits(d),
    ensures
        decimal(d, acc) >= acc,
    decreases d.len(),
{
    if d.len() > 0 {
        assert(is_digit(d[0]));
        let r = d.drop_first();
        assert forall|k: int| 0 <= k < r.len() implies is_digit(#[trigger] r[k]) by {
            assert(r[k] == d[k + 1]);
        }
        lemma_decimal_ge(r, acc * 10 + digit_value(d[0]));
    }
}

proof fn lemma_scan_decimal(d: Seq<char>, acc: int)
    requires
        0 <= acc <= 255,
        all_digits(d),
    ensures
        scan_digits(d, acc) == if decimal(d, acc) <= 255 {
            Ok::<int, IntErrorKind>(decimal(d, acc))
        } else {
            Err::<int, IntErrorKind>(IntErrorKind::PosOverflow)
        },
    decreases d.len(),
{
    if d.len() > 0 {
        assert(is_digit(d[0]));
        let r = d.drop_first();
        assert forall|k: int| 0 <= k < r.len() implies is_digit(#[trigger] r[k]) by {
            assert(r[k] == d[k + 1]);
        }
        let a2 = acc * 10 + digit_value(d[0]);
        lemma_decimal_ge(r, a2);
        if a2 <= 255 {
            lemma_scan_decimal(r, a2);
        }
    }
}

/// Reading a `u8` from decimal digits, with or without a leading `+`, gives
/// their value where it fits in a `u8` (leading zeros included), and an
/// overflow where it does not; an empty text or a lone `+` is refused.
pub proof fn lemma_u8_from_digits(d: Seq<char>)
    requires
        d.len() > 0,
        all_digits(d),
    ensures
        parse_u8_text(d) == if decimal(d, 0) <= 255 {
            Ok::<u8, IntErrorKind>(decimal(d, 0) as u8)
        } else {
            Err::<u8, IntErrorKind>(IntErrorKind::PosOverflow)
        },
        parse_u8_text(seq!['+'] + d) == parse_u8_text(d),
        parse_u8_text(Seq::<char>::empty()) == Err::<u8, IntErrorKind>(IntErrorKind::Empty),
        parse_u8_text(seq!['+']) == Err::<u8, IntErrorKind>(IntErrorKind::InvalidDigit),
{
    assert(is_digit(d[0]));
    assert(d[0] != '+');
    lemma_scan_decimal(d, 0);
    assert((seq!['+'] + d).drop_first() =~= d);
}

// ── A prompt or body without a key ───────────────────────────────────────────

/// A text that can stand between quotes as a prompt or body without a key:
/// on one line, free of `"`, `=` and `|`.
pub open spec fn free_text_ok(p: Seq<char>) -> bool {
    forall|k: int| 0 <= k < p.len() ==> #[trigger] p[k] != '"' && p[k] != '=' && p[k] != '|'
        && p[k] != '\n'
}

proof fn lemma_split_mid(s: Seq<char>, n: int, w: int, a: Seq<char>, b: Seq<char>)
    requires
        0 <= n <= w <= s.len(),
        s.subrange(n, w) == a + b,
    ensures
        n + a.len() + b.len() == w,
        has_at(s, n, a),
        s.subrange(n + a.len(), w) == b,
        forall|j: int| 0 <= j < a.len() ==> s[n + j] == #[trigger] a[j],
{
    let t = s.subrange(n, w);
    assert(t.len() == w - n);
    assert((a + b).len() == a.len() + b.len());
    assert forall|j: int| 0 <= j < a.len() implies s[n + j] == #[trigger] a[j] by {
        assert(t[j] == s[n + j]);
        assert((a + b)[j] == a[j]);
    }
    assert(s.subrange(n, n + a.len()) =~= a) by {
        assert forall|j: int| 0 <= j < a.len() implies s.subrange(n, n + a.len())[j] == a[j] by {
            assert(s[n + j] == a[j]);
        }
    }
    assert(s.subrange(n + a.len(), w) =~= b) by {
        assert forall|j: int| 0 <= j < b.len() implies s.subrange(n + a.len(), w)[j] == b[j] by {
            assert(t[a.len() + j] == (a + b)[a.len() + j]);
        }
    }
}

/// The quoted text at `w + 3`, after ` | ` at `w`, is no `key=value` item, and
/// reads as a quoted value ending at `z`.
#[verifier::spinoff_prover]
proof fn lemma_free_item(s: Seq<char>, w: int, p: Seq<char>)
    requires
        0 <= w,
        free_text_ok(p),
        s.subrange(w, w + 5 + p.len()) == " | \""@ + p + "\""@,
        w + 5 + p.len() == s.len() || has_at(s, w + 5 + p.len(), " | "@),
    ensures
        pair_at(s, w + 3) is None,
        pipe_at(s, w) == Some(w + 3),
        pipe_at(s, w + 1) == Some(w + 3),
        quoted_at(s, w + 3) == Some((w + 5 + p.len(), p)),
{
    reveal_strlit(" | \"");
    reveal_strlit("\"");
    reveal_strlit(" | ");
    let z = w + 5 + p.len();
    let t = s.subrange(w, z);
    assert(t =~= " | \""@ + p + "\""@);
    assert forall|k: int| 0 <= k < t.len() implies s[w + k] == #[trigger] t[k] by {}
    assert(s[w] == ' ' && s[w + 1] == '|' && s[w + 2] == ' ' && s[w + 3] == '"') by {
        assert(t[0] == ' ' && t[1] == '|' && t[2] == ' ' && t[3] == '"');
    }
    assert forall|k: int| 0 <= k < p.len() implies s[w + 4 + k] == #[trigger] p[k] by {
        assert(t[4 + k] == p[k]);
    }
    assert(s[z - 1] == '"') by {
        assert(t[t.len() - 1] == '"');
    }
    assert(is_ws(' ') && is_ws('\t'));
    lemma_span_exact(s, w, w + 1, CharClass::Blank);
    lemma_span_exact(s, w + 1, w + 1, CharClass::Blank);
    lemma_span_exact(s, w + 2, w + 3, CharClass::Blank);
    // The key run from the quote reaches a `|` or the end, never an `=`.
    let k = if z == s.len() {
        z
    } else {
        z + 1
    };
    if z < s.len() {
        assert(s.subrange(z, z + 3)[0] == s[z]);
        assert(s.subrange(z, z + 3)[1] == s[z + 1]);
        assert(s[z] == ' ' && s[z + 1] == '|');
    }
    assert forall|q: int| w + 3 <= q < k implies in_class(CharClass::Key, #[trigger] s[q]) by {
        if w + 4 <= q < z - 1 {
            assert(s[w + 4 + (q - w - 4)] == p[q - w - 4]);
        }
    }
    lemma_span_exact(s, w + 3, k, CharClass::Key);
    // The quoted value closes at the first quote after the opening one.
    assert(s.subrange(z - 1, z) =~= seq!['"']);
    assert forall|q: int| w + 4 <= q < z - 1 implies !#[trigger] has_at(s, q, seq!['"']) by {
        assert(s[w + 4 + (q - w - 4)] == p[q - w - 4]);
        if has_at(s, q, seq!['"']) {
            assert(s.subrange(q, q + 1)[0] == s[q]);
        }
    }
    lemma_find_exact(s, w + 4, z - 1, seq!['"']);
    assert(s.subrange(w + 4, z - 1) =~= p);
}

#[verifier::spinoff_prover]
proof fn lemma_more_pairs_stop(s: Seq<char>, n: int, e: int, fs: Seq<WireField>, w: int)
    requires
        fields_ok(fs),
        0 <= n <= w,
        n <= e,
        w + 3 < s.len(),
        has_at(s, w, " | "@),
        s[w + 3] == '"',
        pair_at(s, w + 3) is None,
        e == n || e == n + 1,
        fs.len() == 0 ==> n == w,
        fs.len() > 0 ==> s.subrange(n, w) == " | "@ + fields_text(fs) && !fs.last().quoted,
    ensures
        more_pairs(s, e) == (pairs_of(fs), if fs.len() == 0 { e } else { w + 1 }),
    decreases fs.len(),
{
    reveal_strlit(" | ");
    assert(is_ws(' ') && is_ws('\t'));
    if fs.len() == 0 {
        assert(s.subrange(w, w + 3)[0] == s[w]);
        assert(s.subrange(w, w + 3)[1] == s[w + 1]);
        assert(s.subrange(w, w + 3)[2] == s[w + 2]);
        if e == n {
            lemma_span_exact(s, e, e + 1, CharClass::Blank);
        } else {
            lemma_span_exact(s, e, e, CharClass::Blank);
        }
        lemma_span_exact(s, w + 2, w + 3, CharClass::Blank);
        assert(pipe_at(s, e) == Some(w + 3));
        assert(pairs_of(fs) =~= Seq::<Pair>::empty());
    } else {
        let f0 = fs[0];
        let rest = fs.drop_first();
        assert(field_ok(f0));
        lemma_fields_text_front(fs);
        let tail = if fs.len() == 1 {
            Seq::<char>::empty()
        } else {
            " | "@ + fields_text(rest)
        };
        assert(" | "@ + fields_text(fs) =~= " | "@ + (render(f0) + tail));
        lemma_split_mid(s, n, w, " | "@, render(f0) + tail);
        lemma_split_mid(s, n + 3, w, render(f0), tail);
        let m = n + 3 + render(f0).len();
        assert((" | "@)[0] == ' ' && (" | "@)[1] == '|' && (" | "@)[2] == ' ');
        assert(s[n + 0] == ' ' && s[n + 1] == '|' && s[n + 2] == ' ');
        assert(s[n + 3] == render(f0)[0]);
        assert(render(f0)[0] == f0.key[0]);
        if e == n {
            lemma_span_exact(s, n, n + 1, CharClass::Blank);
        } else {
            lemma_span_exact(s, n + 1, n + 1, CharClass::Blank);
        }
        lemma_span_exact(s, n + 2, n + 3, CharClass::Blank);
        assert(pipe_at(s, e) == Some(n + 3));
        if fs.len() > 1 {
            lemma_split_mid(s, m, w, " | "@, fields_text(rest));
        } else {
            assert(m == w);
        }
        lemma_pair_roundtrip(s, n + 3, f0);
        let e2 = if !f0.quoted && m < s.len() {
            m + 1
        } else {
            m
        };
        assert forall|j: int| 0 <= j < rest.len() implies field_ok(#[trigger] rest[j]) by {
            assert(rest[j] == fs[j + 1]);
        }
        if rest.len() > 0 {
            assert(rest.last() == fs.last());
        }
        lemma_more_pairs_stop(s, m, e2, rest, w);
        assert(pairs_of(fs) =~= seq![(f0.key, f0.value)] + pairs_of(rest));
    }
}

/// A list of bare `key=value` items that ends at `w`, where a quoted text
/// without a key follows, reads as its pairs and stops at the `|` before it.
#[verifier::spinoff_prover]
proof fn lemma_kv_stop(s: Seq<char>, i: int, fs: Seq<WireField>, w: int)
    requires
        fs.len() > 0,
        fields_ok(fs),
        !fs.last().quoted,
        0 <= i <= w,
        w + 3 < s.len(),
        has_at(s, w, " | "@),
        s[w + 3] == '"',
        pair_at(s, w + 3) is None,
        s.subrange(i, w) == fields_text(fs),
    ensures
        kv_pairs_at(s, i) == Some((pairs_of(fs), w + 1)),
{
    reveal_strlit(" | ");
    let f0 = fs[0];
    let rest = fs.drop_first();
    assert(field_ok(f0));
    lemma_fields_text_front(fs);
    let tail = if fs.len() == 1 {
        Seq::<char>::empty()
    } else {
        " | "@ + fields_text(rest)
    };
    lemma_split_mid(s, i, w, render(f0), tail);
    let m = i + render(f0).len();
    if fs.len() > 1 {
        lemma_split_mid(s, m, w, " | "@, fields_text(rest));
    } else {
        assert(m == w);
    }
    lemma_pair_roundtrip(s, i, f0);
    let e2 = if !f0.quoted && m < s.len() {
        m + 1
    } else {
        m
    };
    assert forall|j: int| 0 <= j < rest.len() implies field_ok(#[trigger] rest[j]) by {
        assert(rest[j] == fs[j + 1]);
    }
    if rest.len() > 0 {
        assert(rest.last() == fs.last());
    }
    lemma_more_pairs_stop(s, m, e2, rest, w);
    assert(pairs_of(fs) =~= seq![(f0.key, f0.value)] + pairs_of(rest));
}

proof fn lemma_three(s: Seq<char>, h: Seq<char>, m: Seq<char>, q: Seq<char>)
    requires
        s == h + m + q,
    ensures
        s.subrange(0, h.len() as int) == h,
        s.subrange(h.len() as int, (h.len() + m.len()) as int) == m,
        s.subrange((h.len() + m.len()) as int, s.len() as int) == q,
{
    assert(s.subrange(0, h.len() as int) =~= h);
    assert(s.subrange(h.len() as int, (h.len() + m.len()) as int) =~= m);
    assert(s.subrange((h.len() + m.len()) as int, s.len() as int) =~= q);
}

/// A CHALLENGE line whose prompt stands last, quoted, without a key, reads to
/// its end with that prompt, its topic, its identifier and its source.
#[verifier::spinoff_prover]
pub proof fn lemma_challenge_free_prompt(
    topic: Seq<char>,
    id: Seq<char>,
    source: Option<Seq<char>>,
    p: Seq<char>,
)
    requires
        bare_ok(topic),
        bare_ok(id),
        optional_bare_ok(source),
        free_text_ok(p),
    ensures
        ({
            let line = "MINISKILL-CHALLENGE: "@ + ("topic="@ + topic + " | challenge-id="@ + id
                + opt_text("source"@, source)) + (" | \""@ + p + "\""@);
            challenge_line_token(line) == Some(
                (
                    line.len() as int,
                    ChallengeTokenModel { topic, challenge_id: id, source, prompt: p },
                ),
            )
        }),
{
    reveal_strlit("topic=");
    reveal_strlit(" | challenge-id=");
    reveal_strlit("topic");
    reveal_strlit("challenge-id");
    reveal_strlit(" | ");
    reveal_strlit("=");
    reveal_strlit(" | \"");
    reveal_strlit("\"");
    reveal_strlit("MINISKILL-CHALLENGE: ");
    reveal_strlit("MINISKILL-CHALLENGE:");
    assert("topic="@ =~= "topic"@ + "="@);
    assert(" | challenge-id="@ =~= " | "@ + "challenge-id"@ + "="@);
    lemma_challenge_keyed(topic, id, source);
    let f0 = WireField { key: "topic"@, value: topic, quoted: false };
    let f1 = WireField { key: "challenge-id"@, value: id, quoted: false };
    let a1 = seq![f0];
    let a2 = a1.push(f1);
    assert(a2 =~= seq![f0, f1]);
    lemma_fields_one(f0);
    lemma_bare_first("topic"@, topic, "topic="@);
    lemma_fields_push(a1, f1);
    lemma_bare_step(fields_text(a1), "challenge-id"@, id, " | challenge-id="@);
    lemma_fields_opt(a2, "source"@, source);
    let fs = challenge_keyed_fields(topic, id, source);
    assert(fs == a2 + optional_bare("source"@, source));
    let ft = fields_text(fs);
    let h = "MINISKILL-CHALLENGE: "@;
    let q = " | \""@ + p + "\""@;
    let line = h + ft + q;
    lemma_three(line, h, ft, q);
    let w: int = (h.len() + ft.len()) as int;
    assert(line.subrange(w, w + 5 + p.len()) == " | \""@ + p + "\""@);
    lemma_free_item(line, w, p);
    assert(line.subrange(w, w + 3) =~= " | "@) by {
        assert(line.subrange(w, w + 3) =~= q.subrange(0, 3));
    }
    assert(line[w + 3] == q[3]);
    // The tag, one blank, then the keyed items.
    assert(line.subrange(0, 20) =~= "MINISKILL-CHALLENGE:"@) by {
        assert forall|k: int| 0 <= k < 20 implies line.subrange(0, 20)[k] == ("MINISKILL-CHALLENGE:"@)[k] by {
            assert(line.subrange(0, h.len() as int)[k] == h[k]);
        }
    }
    assert(line[20] == h[20]);
    assert(ft[0] == render(f0)[0]) by {
        lemma_fields_text_front(fs);
    }
    assert(line[21] == ft[0]) by {
        assert(line.subrange(h.len() as int, (h.len() + ft.len()) as int)[0] == line[21]);
    }
    assert(is_ws(' ') && is_ws('\t'));
    lemma_span_exact(line, 20, 21, CharClass::Blank);
    lemma_kv_stop(line, 21, fs, w);
    assert(tagged_pairs(line, "MINISKILL-CHALLENGE:"@) == Some((pairs_of(fs), w + 1)));
    assert(keyless_at(line, w + 1) == Some((line.len() as int, p)));
}

proof fn lemma_response_keyed_text(id: Seq<char>, respondent: Seq<char>)
    ensures
        fields_text(response_keyed_fields(id, respondent)) == "challenge-id="@ + id
            + " | respondent="@ + respondent,
        fields_text(response_keyed_fields(id, respondent))[0] == 'c',
{
    reveal_strlit("challenge-id=");
    reveal_strlit(" | respondent=");
    reveal_strlit("challenge-id");
    reveal_strlit("respondent");
    reveal_strlit(" | ");
    reveal_strlit("=");
    assert("challenge-id="@ =~= "challenge-id"@ + "="@);
    assert(" | respondent="@ =~= " | "@ + "respondent"@ + "="@);
    let f0 = WireField { key: "challenge-id"@, value: id, quoted: false };
    let f1 = WireField { key: "respondent"@, value: respondent, quoted: false };
    let a1 = seq![f0];
    let a2 = a1.push(f1);
    assert(a2 =~= seq![f0, f1]);
    lemma_fields_one(f0);
    lemma_bare_first("challenge-id"@, id, "challenge-id="@);
    lemma_fields_push(a1, f1);
    lemma_bare_step(fields_text(a1), "respondent"@, respondent, " | respondent="@);
    assert(response_keyed_fields(id, respondent) == a2);
    assert(("challenge-id="@ + id + " | respondent="@ + respondent)[0] == ("challenge-id="@)[0]);
}

proof fn lemma_sig_tail(line: Seq<char>, z: int, sig: Option<Seq<char>>)
    requires
        0 <= z <= line.len(),
        optional_bare_ok(sig),
        crate::laws::fields_ok(optional_bare("sig"@, sig)),
        line.subrange(z, line.len() as int) == opt_text("sig"@, sig),
    ensures
        more_pairs(line, z) == (pairs_of(optional_bare("sig"@, sig)), line.len() as int),
        z == line.len() || has_at(line, z, " | "@),
{
    reveal_strlit(" | ");
    reveal_strlit("=");
    let o = optional_bare("sig"@, sig);
    let sigt = opt_text("sig"@, sig);
    match sig {
        Some(x) => {
            let g = WireField { key: "sig"@, value: x, quoted: false };
            lemma_fields_one(g);
            assert(o == seq![g]);
            assert(sigt =~= " | "@ + fields_text(o));
            assert(line.subrange(z, z + 3) =~= " | "@) by {
                assert forall|k: int| 0 <= k < 3 implies line.subrange(z, z + 3)[k] == (" | "@)[k] by {
                    assert(line.subrange(z, line.len() as int)[k] == sigt[k]);
                }
            }
            lemma_more_pairs_roundtrip(line, z, z, o);
        },
        None => {
            assert(sigt.len() == 0);
            assert(line.subrange(z, line.len() as int).len() == line.len() - z);
            assert(z == line.len());
            lemma_span_exact(line, z, z, CharClass::Blank);
            assert(pairs_of(o) =~= Seq::<Pair>::empty());
        },
    }
}

proof fn lemma_response_assemble(
    line: Seq<char>,
    w: int,
    z: int,
    id: Seq<char>,
    respondent: Seq<char>,
    b: Seq<char>,
    sig: Option<Seq<char>>,
)
    requires
        tagged_pairs(line, "MINISKILL-RESPONSE:"@) == Some(
            (pairs_of(response_keyed_fields(id, respondent)), w + 1),
        ),
        keyless_at(line, w + 1) == Some((z, b)),
        more_pairs(line, z) == (pairs_of(optional_bare("sig"@, sig)), line.len() as int),
        ({
            let kv = pairs_of(response_keyed_fields(id, respondent) + optional_bare("sig"@, sig));
            &&& kv_lookup(kv, "challenge-id"@) == Some(id)
            &&& kv_lookup(kv, "respondent"@) == Some(respondent)
            &&& kv_lookup(kv, "body"@) is None
            &&& kv_lookup(kv, "response"@) is None
            &&& kv_lookup(kv, "sig"@) == sig
        }),
    ensures
        response_line_token(line) == Some(
            (line.len() as int, ResponseTokenModel { challenge_id: id, respondent, body: b, sig }),
        ),
{
    let fs = response_keyed_fields(id, respondent);
    let o = optional_bare("sig"@, sig);
    assert(pairs_of(fs) + pairs_of(o) =~= pairs_of(fs + o));
}

/// A RESPONSE line whose body stands quoted without a key, followed by its
/// signature where there is one, reads to its end with that body, its
/// identifier, its respondent and its signature.
#[verifier::spinoff_prover]
pub proof fn lemma_response_free_body(
    id: Seq<char>,
    respondent: Seq<char>,
    b: Seq<char>,
    sig: Option<Seq<char>>,
)
    requires
        bare_ok(id),
        bare_ok(respondent),
        free_text_ok(b),
        optional_bare_ok(sig),
    ensures
        ({
            let line = "MINISKILL-RESPONSE: "@ + ("challenge-id="@ + id + " | respondent="@
                + respondent) + (" | \""@ + b + "\""@ + opt_text("sig"@, sig));
            response_line_token(line) == Some(
                (
                    line.len() as int,
                    ResponseTokenModel { challenge_id: id, respondent, body: b, sig },
                ),
            )
        }),
{
    reveal_strlit(" | \"");
    reveal_strlit("\"");
    reveal_strlit(" | ");
    reveal_strlit("MINISKILL-RESPONSE: ");
    reveal_strlit("MINISKILL-RESPONSE:");
    lemma_response_keyed(id, respondent, sig);
    lemma_response_keyed_text(id, respondent);
    let fs = response_keyed_fields(id, respondent);
    let ft = fields_text(fs);
    let h = "MINISKILL-RESPONSE: "@;
    let sigt = opt_text("sig"@, sig);
    let q = " | \""@ + b + "\""@ + sigt;
    let line = h + ft + q;
    lemma_three(line, h, ft, q);
    let w: int = (h.len() + ft.len()) as int;
    let z = w + 5 + b.len();
    assert(line.subrange(w, z) =~= " | \""@ + b + "\""@) by {
        assert forall|k: int| 0 <= k < z - w implies line.subrange(w, z)[k] == (" | \""@ + b + "\""@)[k] by {
            assert(line.subrange(w, line.len() as int)[k] == q[k]);
        }
    }
    assert(line.subrange(z, line.len() as int) =~= sigt) by {
        assert forall|k: int| 0 <= k < sigt.len() implies line.subrange(z, line.len() as int)[k] == sigt[k] by {
            assert(line.subrange(w, line.len() as int)[z - w + k] == q[z - w + k]);
        }
    }
    lemma_sig_tail(line, z, sig);
    lemma_free_item(line, w, b);
    assert(line.subrange(w, w + 3) =~= " | "@) by {
        assert(line.subrange(w, w + 3) =~= q.subrange(0, 3));
    }
    assert(line[w + 3] == q[3]);
    assert(line.subrange(0, 19) =~= "MINISKILL-RESPONSE:"@) by {
        assert forall|k: int| 0 <= k < 19 implies line.subrange(0, 19)[k] == ("MINISKILL-RESPONSE:"@)[k] by {
            assert(line.subrange(0, h.len() as int)[k] == h[k]);
        }
    }
    assert(line[19] == h[19]);
    assert(line[20] == ft[0]) by {
        assert(line.subrange(h.len() as int, (h.len() + ft.len()) as int)[0] == line[20]);
    }
    assert(is_ws(' ') && is_ws('\t'));
    lemma_span_exact(line, 19, 20, CharClass::Blank);
    lemma_kv_stop(line, 20, fs, w);
    assert(tagged_pairs(line, "MINISKILL-RESPONSE:"@) == Some((pairs_of(fs), w + 1)));
    assert(keyless_at(line, w + 1) == Some((z, b)));
    lemma_response_assemble(line, w, z, id, respondent, b, sig);
}

// ── Blanks inside a `key=value` item ─────────────────────────────────────────

/// Blanks around the key and around the value of a `key=value` item do not
/// count: the item reads as the key and the value without them, and it ends
/// where the next `|` starts, or at the end of the line.
#[verifier::spinoff_prover]
pub proof fn lemma_pair_blanks(
    pre: Seq<char>,
    b0: Seq<char>,
    k: Seq<char>,
    b1: Seq<char>,
    b2: Seq<char>,
    v: Seq<char>,
    b3: Seq<char>,
    post: Seq<char>,
)
    requires
        key_ok(k),
        bare_ok(v),
        blanks(b0),
        blanks(b1),
        blanks(b2),
        blanks(b3),
        post.len() == 0 || post[0] == '|',
    ensures
        ({
            let item = b0 + k + b1 + "="@ + b2 + v + b3;
            pair_at(pre + item + post, pre.len() as int) == Some(
                ((pre.len() + item.len()) as int, (k, v)),
            )
        }),
{
    reveal_strlit("=");
    let item = b0 + k + b1 + "="@ + b2 + v + b3;
    let s = pre + item + post;
    let i = pre.len() as int;
    let kk = i + b0.len() + k.len() + b1.len();
    let vs = kk + 1;
    let ve = vs + b2.len() + v.len() + b3.len();
    assert(ve == i + item.len());
    assert forall|q: int| 0 <= q < item.len() implies s[i + q] == #[trigger] item[q] by {}
    assert(is_ws(' ') && is_ws('\t'));
    // The key runs up to the `=`.
    assert forall|q: int| i <= q < kk implies in_class(CharClass::Key, #[trigger] s[q]) by {
        assert(s[i + (q - i)] == item[q - i]);
        let r = q - i;
        if r < b0.len() {
            assert(item[r] == b0[r]);
        } else if r < b0.len() + k.len() {
            assert(item[r] == k[r - b0.len()]);
        } else {
            assert(item[r] == b1[r - b0.len() - k.len()]);
        }
    }
    assert(s[i + (kk - i)] == item[kk - i]);
    assert(s[kk] == '=');
    lemma_span_exact(s, i, kk, CharClass::Key);
    // The value runs up to the next `|` or the end.
    assert forall|q: int| vs <= q < ve implies in_class(CharClass::Segment, #[trigger] s[q]) by {
        assert(s[i + (q - i)] == item[q - i]);
        let r = q - vs;
        if r < b2.len() {
            assert(item[q - i] == b2[r]);
        } else if r < b2.len() + v.len() {
            assert(item[q - i] == v[r - b2.len()]);
        } else {
            assert(item[q - i] == b3[r - b2.len() - v.len()]);
        }
    }
    if post.len() > 0 {
        assert(s[ve] == post[0]);
    }
    lemma_span_exact(s, vs, ve, CharClass::Segment);
    // The value is not quoted.
    if b2.len() > 0 {
        assert(s[vs] == item[vs - i]);
        assert(item[vs - i] == b2[0]);
    } else {
        assert(s[vs] == item[vs - i]);
        assert(item[vs - i] == v[0]);
    }
    assert(s[vs] != '"');
    // Trimming drops the blanks.
    assert(s.subrange(i, kk) =~= b0 + (k + b1));
    assert(s.subrange(vs, ve) =~= b2 + (v + b3));
    assert(all_ws(b0) && all_ws(b1) && all_ws(b2) && all_ws(b3)) by {
        assert forall|q: int| 0 <= q < b0.len() implies is_ws(#[trigger] b0[q]) by {
            assert(b0[q] == ' ' || b0[q] == '\t');
        }
        assert forall|q: int| 0 <= q < b1.len() implies is_ws(#[trigger] b1[q]) by {
            assert(b1[q] == ' ' || b1[q] == '\t');
        }
        assert forall|q: int| 0 <= q < b2.len() implies is_ws(#[trigger] b2[q]) by {
            assert(b2[q] == ' ' || b2[q] == '\t');
        }
        assert forall|q: int| 0 <= q < b3.len() implies is_ws(#[trigger] b3[q]) by {
            assert(b3[q] == ' ' || b3[q] == '\t');
        }
    }
    lemma_trim_ws_around(b0, k, b1);
    lemma_trim_ws_around(b2, v, b3);
    assert(value_at(s, vs) == Some((ve, v)));
}

/// Whitespace on both sides of a piece that neither starts nor ends with
/// whitespace is what `trim` removes.
proof fn lemma_trim_ws_around(a: Seq<char>, x: Seq<char>, c: Seq<char>)
    requires
        all_ws(a),
        all_ws(c),
        x.len() > 0,
        !is_ws(x[0]),
        !is_ws(x.last()),
    ensures
        trim(a + (x + c)) == x,
{
    let y = a + (x + c);
    assert forall|q: int| 0 <= q < a.len() implies is_ws(#[trigger] y[q]) by {
        assert(y[q] == a[q]);
    }
    assert(y[a.len() as int] == x[0]);
    lemma_lead_ws_exact(y, a.len() as int);
    let t = trim_start(y);
    assert(t =~= x + c);
    lemma_trail_ws_append(x, c);
    lemma_trail_ws_shape(x);
    crate::text::lemma_trail_ws_exact(x, 0);
    assert(trim(y) =~= x);
}

} // verus!
