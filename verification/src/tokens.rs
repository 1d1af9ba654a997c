//! Reading `MINISKILL-*` token lines.
//!
//! Each kind of line starts with its tag. A SELF line is a list of
//! `KEYWORD value` segments separated by `|`; the other kinds are a list of
//! `key=value` pairs (see `kv`). A reader reports where the token ends, so that
//! the caller sees what is left of the line.

use vstd::prelude::*;

use crate::kv::{
    keyless_at, kv_get, kv_lookup, kv_pairs_at, lemma_pipe_at, more_pairs, pairs_model,
    parse_keyless, parse_kv_pairs, parse_more_pairs, parse_pipe,
    parse_result_field, parse_u8_field, pipe_at, required_field, result_field, u8_field, Pair,
};
use crate::text::{
    chars_of, has_at, has_at_exec, lemma_span, parse_u8_exec, parse_u8_text, span, span_end,
    string_of, trim, trim_bounds, CharClass,
};
use crate::types::{
    AttestToken, AttestTokenModel, ChallengeToken, ChallengeTokenModel, ReplayFields,
    ReplayFieldsModel, ResponseToken, ResponseTokenModel, SelfToken, SelfTokenModel, VouchToken,
    VouchTokenModel, WireToken, WireTokenModel,
};

verus! {

// ── MINISKILL-SELF ───────────────────────────────────────────────────────────

/// Further `| segment` items after position `i` (a segment is a nonempty run of
/// anything but `|` and a newline), and where the list ends.
pub open spec fn more_segments(s: Seq<char>, i: int) -> (Seq<Seq<char>>, int)
    decreases s.len() - i,
{
    if 0 <= i <= s.len() {
        match pipe_at(s, i) {
            None => (seq![], i),
            Some(j) => {
                let e = span(s, j, CharClass::Segment);
                if e == j {
                    (seq![], i)
                } else {
                    proof {
                        lemma_pipe_at(s, i);
                        lemma_span(s, j, CharClass::Segment);
                    }
                    let (rest, end) = more_segments(s, e);
                    (seq![s.subrange(j, e)] + rest, end)
                }
            },
        }
    } else {
        (seq![], i)
    }
}

/// One or more segments separated by ` | `, starting at `i`.
pub open spec fn segments_at(s: Seq<char>, i: int) -> Option<(Seq<Seq<char>>, int)> {
    let e = span(s, i, CharClass::Segment);
    if e == i {
        None
    } else {
        let (rest, end) = more_segments(s, e);
        Some((seq![s.subrange(i, e)] + rest, end))
    }
}

/// The position of the last `c` in `s`.
pub open spec fn last_index_of(s: Seq<char>, c: char) -> Option<int>
    decreases s.len(),
{
    if s.len() == 0 {
        None
    } else if s.last() == c {
        Some(s.len() - 1)
    } else {
        last_index_of(s.drop_last(), c)
    }
}

pub open spec fn empty_self() -> SelfTokenModel {
    SelfTokenModel {
        model_family: seq![],
        model_version: seq![],
        ct_self: 0,
        topic: seq![],
        version: None,
        ai_key: None,
    }
}

/// What one segment does to the token read so far: the segment is trimmed and
/// recognised by its keyword; an unrecognised segment changes nothing. The AI
/// key is taken in both forms, `ai-key key` and `ai-key=key`.
pub open spec fn apply_segment(t: SelfTokenModel, raw: Seq<char>) -> SelfTokenModel {
    let seg = trim(raw);
    if has_at(seg, 0, "MODEL "@) {
        let rest = seg.skip(("MODEL "@).len() as int);
        match last_index_of(rest, ' ') {
            Some(k) => SelfTokenModel {
                model_family: rest.take(k),
                model_version: rest.skip(k + 1),
                ..t
            },
            None => SelfTokenModel { model_family: rest, ..t },
        }
    } else if has_at(seg, 0, "CT-SELF "@) {
        let rest = seg.skip(("CT-SELF "@).len() as int);
        SelfTokenModel {
            ct_self: match parse_u8_text(trim(rest)) {
                Ok(n) => n,
                Err(_) => 0,
            },
            ..t
        }
    } else if has_at(seg, 0, "topic "@) {
        SelfTokenModel { topic: seg.skip(("topic "@).len() as int), ..t }
    } else if has_at(seg, 0, "version "@) {
        SelfTokenModel { version: Some(seg.skip(("version "@).len() as int)), ..t }
    } else if has_at(seg, 0, "ai-key "@) {
        SelfTokenModel { ai_key: Some(seg.skip(("ai-key "@).len() as int)), ..t }
    } else if has_at(seg, 0, "ai-key="@) {
        SelfTokenModel { ai_key: Some(seg.skip(("ai-key="@).len() as int)), ..t }
    } else {
        t
    }
}

/// The token that a list of segments describes, applied in order.
pub open spec fn fold_segments(segs: Seq<Seq<char>>) -> SelfTokenModel
    decreases segs.len(),
{
    if segs.len() == 0 {
        empty_self()
    } else {
        apply_segment(fold_segments(segs.drop_last()), segs.last())
    }
}

/// A SELF line: the position where it ends, and the token.
pub open spec fn self_line_token(s: Seq<char>) -> Option<(int, SelfTokenModel)> {
    if has_at(s, 0, "MINISKILL-SELF:"@) {
        match segments_at(s, span(s, ("MINISKILL-SELF:"@).len() as int, CharClass::Blank)) {
            Some((segs, end)) => Some((end, fold_segments(segs))),
            None => None,
        }
    } else {
        None
    }
}

/// `s[a..b]` starts with `pat`.
fn starts_with_in(s: &Vec<char>, a: usize, b: usize, pat: &Vec<char>) -> (r: bool)
    requires
        a <= b <= s.len(),
    ensures
        r == has_at(s@.subrange(a as int, b as int), 0, pat@),
{
    let r = pat.len() <= b - a && has_at_exec(s, a, pat);
    proof {
        let x = s@.subrange(a as int, b as int);
        if pat.len() <= b - a {
            assert(x.subrange(0, pat@.len() as int) =~= s@.subrange(a as int, a + pat@.len()));
        }
    }
    r
}

/// The position of the last space in `s[a..b]`, counted from `a`.
fn last_space_in(s: &Vec<char>, a: usize, b: usize) -> (r: Option<usize>)
    requires
        a <= b <= s.len(),
    ensures
        r matches Some(k) ==> a + k < b && last_index_of(s@.subrange(a as int, b as int), ' ')
            == Some(k as int),
        r is None ==> last_index_of(s@.subrange(a as int, b as int), ' ') is None,
{
    let mut q = b;
    while q > a
        invariant
            a <= q <= b <= s.len(),
            last_index_of(s@.subrange(a as int, b as int), ' ') == last_index_of(
                s@.subrange(a as int, q as int),
                ' ',
            ),
        decreases q - a,
    {
        let ghost x = s@.subrange(a as int, q as int);
        assert(x.last() == s@[q - 1]);
        if s[q - 1] == ' ' {
            return Some(q - 1 - a);
        }
        assert(x.drop_last() =~= s@.subrange(a as int, q - 1));
        q = q - 1;
    }
    None
}

/// Applies the segment `s[a..b]` to `t`.
fn apply_segment_exec(t: SelfToken, s: &Vec<char>, a: usize, b: usize) -> (r: SelfToken)
    requires
        a <= b <= s.len(),
    ensures
        r@ == apply_segment(t@, s@.subrange(a as int, b as int)),
{
    let mut t = t;
    let (p, q) = trim_bounds(s, a, b);
    let ghost seg = s@.subrange(p as int, q as int);
    let model = chars_of("MODEL ");
    let ct = chars_of("CT-SELF ");
    let topic = chars_of("topic ");
    let version = chars_of("version ");
    let ai_key = chars_of("ai-key ");
    let ai_key_eq = chars_of("ai-key=");
    if starts_with_in(s, p, q, &model) {
        let r0 = p + model.len();
        assert(seg.skip(model@.len() as int) =~= s@.subrange(r0 as int, q as int));
        match last_space_in(s, r0, q) {
            Some(k) => {
                assert(s@.subrange(r0 as int, q as int).take(k as int) =~= s@.subrange(
                    r0 as int,
                    r0 + k,
                ));
                assert(s@.subrange(r0 as int, q as int).skip(k + 1) =~= s@.subrange(
                    r0 + k + 1,
                    q as int,
                ));
                t.model_family = string_of(s, r0, r0 + k);
                t.model_version = string_of(s, r0 + k + 1, q);
            },
            None => {
                t.model_family = string_of(s, r0, q);
            },
        }
    } else if starts_with_in(s, p, q, &ct) {
        let r0 = p + ct.len();
        assert(seg.skip(ct@.len() as int) =~= s@.subrange(r0 as int, q as int));
        let (c0, c1) = trim_bounds(s, r0, q);
        t.ct_self = match parse_u8_exec(s, c0, c1) {
            Ok(n) => n,
            Err(_) => 0,
        };
    } else if starts_with_in(s, p, q, &topic) {
        let r0 = p + topic.len();
        assert(seg.skip(topic@.len() as int) =~= s@.subrange(r0 as int, q as int));
        t.topic = string_of(s, r0, q);
    } else if starts_with_in(s, p, q, &version) {
        let r0 = p + version.len();
        assert(seg.skip(version@.len() as int) =~= s@.subrange(r0 as int, q as int));
        t.version = Some(string_of(s, r0, q));
    } else if starts_with_in(s, p, q, &ai_key) {
        let r0 = p + ai_key.len();
        assert(seg.skip(ai_key@.len() as int) =~= s@.subrange(r0 as int, q as int));
        t.ai_key = Some(string_of(s, r0, q));
    } else if starts_with_in(s, p, q, &ai_key_eq) {
        let r0 = p + ai_key_eq.len();
        assert(seg.skip(ai_key_eq@.len() as int) =~= s@.subrange(r0 as int, q as int));
        t.ai_key = Some(string_of(s, r0, q));
    }
    t
}

/// Reads a SELF line from the start of `s`.
fn parse_self_token(s: &Vec<char>) -> (r: Option<(usize, SelfToken)>)
    ensures
        r matches Some((end, _)) ==> end <= s.len(),
        r matches Some((end, t)) ==> self_line_token(s@) == Some((end as int, t@)),
        r is None ==> self_line_token(s@) is None,
{
    let tag = chars_of("MINISKILL-SELF:");
    if !has_at_exec(s, 0, &tag) {
        return None;
    }
    let i = span_end(s, tag.len(), CharClass::Blank);
    let e = span_end(s, i, CharClass::Segment);
    if e == i {
        return None;
    }
    let empty = SelfToken {
        model_family: String::new(),
        model_version: String::new(),
        ct_self: 0,
        topic: String::new(),
        version: None,
        ai_key: None,
    };
    assert(empty@.model_family =~= empty_self().model_family);
    assert(empty@.model_version =~= empty_self().model_version);
    assert(empty@.topic =~= empty_self().topic);
    assert(empty@ == empty_self());
    let mut tok = apply_segment_exec(empty, s, i, e);
    let ghost mut segs: Seq<Seq<char>> = seq![s@.subrange(i as int, e as int)];
    assert(segs.drop_last() =~= Seq::<Seq<char>>::empty());
    assert(fold_segments(Seq::<Seq<char>>::empty()) == empty_self());
    assert(segs.last() == s@.subrange(i as int, e as int));
    assert(fold_segments(segs) == apply_segment(empty_self(), s@.subrange(i as int, e as int)));
    let mut pos = e;
    loop
        invariant
            i < pos <= s.len(),
            segments_at(s@, i as int) == Some(
                (segs + more_segments(s@, pos as int).0, more_segments(s@, pos as int).1),
            ),
            tok@ == fold_segments(segs),
        ensures
            segments_at(s@, i as int) == Some((segs, pos as int)),
            tok@ == fold_segments(segs),
        decreases s.len() - pos,
    {
        proof {
            lemma_pipe_at(s@, pos as int);
        }
        let j = match parse_pipe(s, pos) {
            Some(j) => j,
            None => {
                assert(segs + more_segments(s@, pos as int).0 =~= segs);
                break ;
            },
        };
        let e2 = span_end(s, j, CharClass::Segment);
        if e2 == j {
            assert(segs + more_segments(s@, pos as int).0 =~= segs);
            break ;
        }
        tok = apply_segment_exec(tok, s, j, e2);
        proof {
            let g = s@.subrange(j as int, e2 as int);
            assert(segs + more_segments(s@, pos as int).0 =~= segs.push(g) + more_segments(
                s@,
                e2 as int,
            ).0);
            assert(segs.push(g).drop_last() =~= segs);
            segs = segs.push(g);
        }
        pos = e2;
    }
    Some((pos, tok))
}

// ── Tokens made of key=value pairs ───────────────────────────────────────────

/// The pairs after `tag` at the start of `s`, and where they end.
pub open spec fn tagged_pairs(s: Seq<char>, tag: Seq<char>) -> Option<(Seq<Pair>, int)> {
    if has_at(s, 0, tag) {
        kv_pairs_at(s, span(s, tag.len() as int, CharClass::Blank))
    } else {
        None
    }
}

fn parse_tagged_pairs(s: &Vec<char>, tag: &str) -> (r: Option<(usize, Vec<(String, String)>)>)
    ensures
        r matches Some((end, _)) ==> end <= s.len(),
        r matches Some((end, kv)) ==> tagged_pairs(s@, tag@) == Some(
            (pairs_model(kv@), end as int),
        ),
        r is None ==> tagged_pairs(s@, tag@) is None,
{
    let t = chars_of(tag);
    if !has_at_exec(s, 0, &t) {
        return None;
    }
    let i = span_end(s, t.len(), CharClass::Blank);
    parse_kv_pairs(s, i)
}

fn owned(v: &str) -> (r: String)
    ensures
        r@ == v@,
{
    String::from_str(v)
}

fn owned_opt(v: Option<&str>) -> (r: Option<String>)
    ensures
        r.deep_view() == match v {
            Some(x) => Some(x@),
            None => None::<Seq<char>>,
        },
{
    match v {
        Some(x) => Some(String::from_str(x)),
        None => None,
    }
}

/// The ATTEST token that the pairs describe.
pub open spec fn attest_from_pairs(kv: Seq<Pair>) -> Option<AttestTokenModel> {
    match (
        required_field(kv, "topic"@),
        required_field(kv, "version"@),
        required_field(kv, "model"@),
        u8_field(kv, "ct-required"@),
        u8_field(kv, "ct-claimed"@),
        result_field(kv),
    ) {
        (Ok(topic), Ok(version), Ok(model), Ok(ct_required), Ok(ct_claimed), Ok(result)) => Some(
            AttestTokenModel {
                topic,
                version,
                model,
                ct_required,
                ct_claimed,
                result,
                proof_system: kv_lookup(kv, "proof-system"@),
                proof: kv_lookup(kv, "proof"@),
                vk_hash: kv_lookup(kv, "vk-hash"@),
                sig: kv_lookup(kv, "sig"@),
            },
        ),
        _ => None,
    }
}

/// The VOUCH token that the pairs describe.
pub open spec fn vouch_from_pairs(kv: Seq<Pair>) -> Option<VouchTokenModel> {
    match (
        required_field(kv, "topic"@),
        required_field(kv, "version"@),
        required_field(kv, "vouching-for"@),
        required_field(kv, "sig"@),
    ) {
        (Ok(topic), Ok(version), Ok(vouching_for), Ok(sig)) => Some(
            VouchTokenModel { topic, version, vouching_for, reason: kv_lookup(kv, "reason"@), sig },
        ),
        _ => None,
    }
}

/// The REPLAY fields that the pairs describe (the scores as their text).
pub open spec fn replay_from_pairs(kv: Seq<Pair>) -> Option<ReplayFieldsModel> {
    match (
        required_field(kv, "topic"@),
        u8_field(kv, "ct-required"@),
        u8_field(kv, "ct-claimed"@),
        result_field(kv),
    ) {
        (Ok(topic), Ok(ct_required), Ok(ct_claimed), Ok(result)) => Some(
            ReplayFieldsModel {
                topic,
                ct_required,
                ct_claimed,
                probe_score: kv_lookup(kv, "probe-score"@),
                threshold: kv_lookup(kv, "threshold"@),
                result,
                enforcer: kv_lookup(kv, "enforcer"@),
            },
        ),
        _ => None,
    }
}

/// The CHALLENGE token that the pairs describe: the prompt is the `prompt`
/// field, else `free`, the quoted value that stands without a key after the
/// pairs.
pub open spec fn challenge_from_pairs(kv: Seq<Pair>, free: Option<Seq<char>>) -> Option<
    ChallengeTokenModel,
> {
    let prompt = match kv_lookup(kv, "prompt"@) {
        Some(p) => Some(p),
        None => free,
    };
    match (required_field(kv, "topic"@), required_field(kv, "challenge-id"@), prompt) {
        (Ok(topic), Ok(challenge_id), Some(prompt)) => Some(
            ChallengeTokenModel {
                topic,
                challenge_id,
                source: kv_lookup(kv, "source"@),
                prompt,
            },
        ),
        _ => None,
    }
}

/// The RESPONSE token that the pairs describe: the body is the `body` field,
/// else the `response` field, else `free`, the quoted value that stands without
/// a key, else empty.
pub open spec fn response_from_pairs(kv: Seq<Pair>, free: Option<Seq<char>>) -> Option<
    ResponseTokenModel,
> {
    match (required_field(kv, "challenge-id"@), required_field(kv, "respondent"@)) {
        (Ok(challenge_id), Ok(respondent)) => Some(
            ResponseTokenModel {
                challenge_id,
                respondent,
                body: match kv_lookup(kv, "body"@) {
                    Some(b) => b,
                    None => match kv_lookup(kv, "response"@) {
                        Some(b) => b,
                        None => match free {
                            Some(b) => b,
                            None => seq![],
                        },
                    },
                },
                sig: kv_lookup(kv, "sig"@),
            },
        ),
        _ => None,
    }
}

pub open spec fn attest_line_token(s: Seq<char>) -> Option<(int, AttestTokenModel)> {
    match tagged_pairs(s, "MINISKILL-ATTEST:"@) {
        Some((kv, end)) => match attest_from_pairs(kv) {
            Some(t) => Some((end, t)),
            None => None,
        },
        None => None,
    }
}

pub open spec fn vouch_line_token(s: Seq<char>) -> Option<(int, VouchTokenModel)> {
    match tagged_pairs(s, "MINISKILL-VOUCH:"@) {
        Some((kv, end)) => match vouch_from_pairs(kv) {
            Some(t) => Some((end, t)),
            None => None,
        },
        None => None,
    }
}

pub open spec fn replay_line_token(s: Seq<char>) -> Option<(int, ReplayFieldsModel)> {
    match tagged_pairs(s, "MINISKILL-REPLAY:"@) {
        Some((kv, end)) => match replay_from_pairs(kv) {
            Some(t) => Some((end, t)),
            None => None,
        },
        None => None,
    }
}

/// A CHALLENGE line: its `key=value` items, then, as the last item, the prompt
/// may stand quoted without a key.
pub open spec fn challenge_line_token(s: Seq<char>) -> Option<(int, ChallengeTokenModel)> {
    match tagged_pairs(s, "MINISKILL-CHALLENGE:"@) {
        Some((kv, end)) => {
            let (free, end2) = match keyless_at(s, end) {
                Some((e, v)) => (Some(v), e),
                None => (None, end),
            };
            match challenge_from_pairs(kv, free) {
                Some(t) => Some((end2, t)),
                None => None,
            }
        },
        None => None,
    }
}

/// A RESPONSE line: its `key=value` items, then the body may stand quoted
/// without a key, followed by further `key=value` items (such as `sig`).
pub open spec fn response_line_token(s: Seq<char>) -> Option<(int, ResponseTokenModel)> {
    match tagged_pairs(s, "MINISKILL-RESPONSE:"@) {
        Some((kv, end)) => {
            let (all, free, end2) = match keyless_at(s, end) {
                Some((e, v)) => {
                    let (more, e2) = more_pairs(s, e);
                    (kv + more, Some(v), e2)
                },
                None => (kv, None, end),
            };
            match response_from_pairs(all, free) {
                Some(t) => Some((end2, t)),
                None => None,
            }
        },
        None => None,
    }
}

/// A token line of any kind: the kinds are tried in the order SELF, ATTEST,
/// VOUCH, REPLAY, CHALLENGE, RESPONSE, and the first that reads wins.
pub open spec fn wire_line_token(s: Seq<char>) -> Option<(int, WireTokenModel)> {
    if let Some((e, t)) = self_line_token(s) {
        Some((e, WireTokenModel::Self_(t)))
    } else if let Some((e, t)) = attest_line_token(s) {
        Some((e, WireTokenModel::Attest(t)))
    } else if let Some((e, t)) = vouch_line_token(s) {
        Some((e, WireTokenModel::Vouch(t)))
    } else if let Some((e, t)) = replay_line_token(s) {
        Some((e, WireTokenModel::Replay(t)))
    } else if let Some((e, t)) = challenge_line_token(s) {
        Some((e, WireTokenModel::Challenge(t)))
    } else if let Some((e, t)) = response_line_token(s) {
        Some((e, WireTokenModel::Response(t)))
    } else {
        None
    }
}

fn attest_fields(kv: &Vec<(String, String)>) -> (r: Option<AttestToken>)
    ensures
        r matches Some(t) ==> attest_from_pairs(pairs_model(kv@)) == Some(t@),
        r is None ==> attest_from_pairs(pairs_model(kv@)) is None,
{
    let topic = crate::kv::kv_require(kv, "topic");
    let version = crate::kv::kv_require(kv, "version");
    let model = crate::kv::kv_require(kv, "model");
    let ct_required = parse_u8_field(kv, "ct-required");
    let ct_claimed = parse_u8_field(kv, "ct-claimed");
    let result = parse_result_field(kv);
    match (topic, version, model, ct_required, ct_claimed, result) {
        (Ok(topic), Ok(version), Ok(model), Ok(ct_required), Ok(ct_claimed), Ok(result)) => {
            Some(
                AttestToken {
                    topic: owned(topic),
                    version: owned(version),
                    model: owned(model),
                    ct_required,
                    ct_claimed,
                    result,
                    proof_system: owned_opt(kv_get(kv, "proof-system")),
                    proof: owned_opt(kv_get(kv, "proof")),
                    vk_hash: owned_opt(kv_get(kv, "vk-hash")),
                    sig: owned_opt(kv_get(kv, "sig")),
                },
            )
        },
        _ => None,
    }
}

fn vouch_fields(kv: &Vec<(String, String)>) -> (r: Option<VouchToken>)
    ensures
        r matches Some(t) ==> vouch_from_pairs(pairs_model(kv@)) == Some(t@),
        r is None ==> vouch_from_pairs(pairs_model(kv@)) is None,
{
    let topic = crate::kv::kv_require(kv, "topic");
    let version = crate::kv::kv_require(kv, "version");
    let vouching_for = crate::kv::kv_require(kv, "vouching-for");
    let sig = crate::kv::kv_require(kv, "sig");
    match (topic, version, vouching_for, sig) {
        (Ok(topic), Ok(version), Ok(vouching_for), Ok(sig)) => {
            Some(
                VouchToken {
                    topic: owned(topic),
                    version: owned(version),
                    vouching_for: owned(vouching_for),
                    reason: owned_opt(kv_get(kv, "reason")),
                    sig: owned(sig),
                },
            )
        },
        _ => None,
    }
}

fn replay_fields(kv: &Vec<(String, String)>) -> (r: Option<ReplayFields>)
    ensures
        r matches Some(t) ==> replay_from_pairs(pairs_model(kv@)) == Some(t@),
        r is None ==> replay_from_pairs(pairs_model(kv@)) is None,
{
    let topic = crate::kv::kv_require(kv, "topic");
    let ct_required = parse_u8_field(kv, "ct-required");
    let ct_claimed = parse_u8_field(kv, "ct-claimed");
    let result = parse_result_field(kv);
    match (topic, ct_required, ct_claimed, result) {
        (Ok(topic), Ok(ct_required), Ok(ct_claimed), Ok(result)) => {
            Some(
                ReplayFields {
                    topic: owned(topic),
                    ct_required,
                    ct_claimed,
                    probe_score: owned_opt(kv_get(kv, "probe-score")),
                    threshold: owned_opt(kv_get(kv, "threshold")),
                    result,
                    enforcer: owned_opt(kv_get(kv, "enforcer")),
                },
            )
        },
        _ => None,
    }
}

fn challenge_fields(kv: &Vec<(String, String)>, free: Option<String>) -> (r: Option<
    ChallengeToken,
>)
    ensures
        r matches Some(t) ==> challenge_from_pairs(pairs_model(kv@), free.deep_view()) == Some(
            t@,
        ),
        r is None ==> challenge_from_pairs(pairs_model(kv@), free.deep_view()) is None,
{
    let topic = crate::kv::kv_require(kv, "topic");
    let challenge_id = crate::kv::kv_require(kv, "challenge-id");
    let prompt = match kv_get(kv, "prompt") {
        Some(p) => Some(owned(p)),
        None => free,
    };
    match (topic, challenge_id, prompt) {
        (Ok(topic), Ok(challenge_id), Some(prompt)) => {
            Some(
                ChallengeToken {
                    topic: owned(topic),
                    challenge_id: owned(challenge_id),
                    source: owned_opt(kv_get(kv, "source")),
                    prompt,
                },
            )
        },
        _ => None,
    }
}

fn response_fields(kv: &Vec<(String, String)>, free: Option<String>) -> (r: Option<
    ResponseToken,
>)
    ensures
        r matches Some(t) ==> response_from_pairs(pairs_model(kv@), free.deep_view()) == Some(
            t@,
        ),
        r is None ==> response_from_pairs(pairs_model(kv@), free.deep_view()) is None,
{
    let challenge_id = crate::kv::kv_require(kv, "challenge-id");
    let respondent = crate::kv::kv_require(kv, "respondent");
    match (challenge_id, respondent) {
        (Ok(challenge_id), Ok(respondent)) => {
            let body = match kv_get(kv, "body") {
                Some(b) => owned(b),
                None => match kv_get(kv, "response") {
                    Some(b) => owned(b),
                    None => match free {
                        Some(b) => b,
                        None => String::new(),
                    },
                },
            };
            Some(
                ResponseToken {
                    challenge_id: owned(challenge_id),
                    respondent: owned(respondent),
                    body,
                    sig: owned_opt(kv_get(kv, "sig")),
                },
            )
        },
        _ => None,
    }
}

fn parse_attest_token(s: &Vec<char>) -> (r: Option<(usize, AttestToken)>)
    ensures
        r matches Some((end, _)) ==> end <= s.len(),
        r matches Some((end, t)) ==> attest_line_token(s@) == Some((end as int, t@)),
        r is None ==> attest_line_token(s@) is None,
{
    match parse_tagged_pairs(s, "MINISKILL-ATTEST:") {
        Some((end, kv)) => match attest_fields(&kv) {
            Some(t) => Some((end, t)),
            None => None,
        },
        None => None,
    }
}

fn parse_vouch_token(s: &Vec<char>) -> (r: Option<(usize, VouchToken)>)
    ensures
        r matches Some((end, _)) ==> end <= s.len(),
        r matches Some((end, t)) ==> vouch_line_token(s@) == Some((end as int, t@)),
        r is None ==> vouch_line_token(s@) is None,
{
    match parse_tagged_pairs(s, "MINISKILL-VOUCH:") {
        Some((end, kv)) => match vouch_fields(&kv) {
            Some(t) => Some((end, t)),
            None => None,
        },
        None => None,
    }
}

fn parse_replay_token(s: &Vec<char>) -> (r: Option<(usize, ReplayFields)>)
    ensures
        r matches Some((end, _)) ==> end <= s.len(),
        r matches Some((end, t)) ==> replay_line_token(s@) == Some((end as int, t@)),
        r is None ==> replay_line_token(s@) is None,
{
    match parse_tagged_pairs(s, "MINISKILL-REPLAY:") {
        Some((end, kv)) => match replay_fields(&kv) {
            Some(t) => Some((end, t)),
            None => None,
        },
        None => None,
    }
}

fn parse_challenge_token(s: &Vec<char>) -> (r: Option<(usize, ChallengeToken)>)
    ensures
        r matches Some((end, _)) ==> end <= s.len(),
        r matches Some((end, t)) ==> challenge_line_token(s@) == Some((end as int, t@)),
        r is None ==> challenge_line_token(s@) is None,
{
    match parse_tagged_pairs(s, "MINISKILL-CHALLENGE:") {
        Some((end, kv)) => {
            let (free, end2) = match parse_keyless(s, end) {
                Some((e, v)) => (Some(v), e),
                None => (None, end),
            };
            match challenge_fields(&kv, free) {
                Some(t) => Some((end2, t)),
                None => None,
            }
        },
        None => None,
    }
}

fn parse_response_token(s: &Vec<char>) -> (r: Option<(usize, ResponseToken)>)
    ensures
        r matches Some((end, _)) ==> end <= s.len(),
        r matches Some((end, t)) ==> response_line_token(s@) == Some((end as int, t@)),
        r is None ==> response_line_token(s@) is None,
{
    match parse_tagged_pairs(s, "MINISKILL-RESPONSE:") {
        Some((end, kv)) => {
            let mut kv = kv;
            let (free, end2) = match parse_keyless(s, end) {
                Some((e, v)) => {
                    let e2 = parse_more_pairs(s, e, &mut kv);
                    (Some(v), e2)
                },
                None => (None, end),
            };
            match response_fields(&kv, free) {
                Some(t) => Some((end2, t)),
                None => None,
            }
        },
        None => None,
    }
}

/// Reads one `MINISKILL-*` token from the start of `input`: on success, the
/// part of `input` after the token, and the token.
pub fn parse_wire_token(input: &str) -> (r: Option<(&str, WireToken)>)
    ensures
        match r {
            Some((rest, t)) => wire_line_token(input@) matches Some((end, m)) && m == t@ && 0
                <= end <= input@.len() && rest@ == input@.skip(end) && rest@.len() <= input@.len(),
            None => wire_line_token(input@) is None,
        },
{
    let s = chars_of(input);
    let found = if let Some((e, t)) = parse_self_token(&s) {
        Some((e, WireToken::Self_(t)))
    } else if let Some((e, t)) = parse_attest_token(&s) {
        Some((e, WireToken::Attest(t)))
    } else if let Some((e, t)) = parse_vouch_token(&s) {
        Some((e, WireToken::Vouch(t)))
    } else if let Some((e, t)) = parse_replay_token(&s) {
        Some((e, WireToken::Replay(t)))
    } else if let Some((e, t)) = parse_challenge_token(&s) {
        Some((e, WireToken::Challenge(t)))
    } else if let Some((e, t)) = parse_response_token(&s) {
        Some((e, WireToken::Response(t)))
    } else {
        None
    };
    match found {
        Some((e, t)) => {
            let rest = input.substring_char(e, s.len());
            Some((rest, t))
        },
        None => None,
    }
}

} // verus!
