//! Writing `MINISKILL-*` token lines in their canonical form.
//!
//! The SELF line is `MINISKILL-SELF: ` followed by its `KEYWORD value`
//! segments; every other kind is its tag followed by `key=value` fields joined
//! with ` | `, the optional fields only where they are present.

use vstd::prelude::*;

use crate::text::{push_u8, u8_text};
use crate::types::{
    result_text, AttestToken, AttestTokenModel, ChallengeToken, ChallengeTokenModel, ReplayFields,
    ReplayFieldsModel, ResponseToken, ResponseTokenModel, SelfToken, SelfTokenModel, VouchToken,
    VouchTokenModel, WireToken, WireTokenModel,
};

verus! {

/// One `key=value` field of a token line; a quoted field writes its value between `"`.
pub struct WireField {
    pub key: Seq<char>,
    pub value: Seq<char>,
    pub quoted: bool,
}

pub open spec fn render(f: WireField) -> Seq<char> {
    if f.quoted {
        f.key + "="@ + "\""@ + f.value + "\""@
    } else {
        f.key + "="@ + f.value
    }
}

/// `parts` joined with `sep` between neighbours (`[T]::join`).
pub open spec fn join(parts: Seq<Seq<char>>, sep: Seq<char>) -> Seq<char>
    decreases parts.len(),
{
    if parts.len() == 0 {
        seq![]
    } else if parts.len() == 1 {
        parts[0]
    } else {
        join(parts.drop_last(), sep) + sep + parts.last()
    }
}

pub open spec fn strings_model(v: Seq<String>) -> Seq<Seq<char>> {
    v.map_values(|x: String| x@)
}

pub open spec fn rendered(fields: Seq<WireField>) -> Seq<Seq<char>> {
    fields.map_values(|f: WireField| render(f))
}

/// The fields rendered and joined with ` | `.
pub open spec fn fields_text(fields: Seq<WireField>) -> Seq<char> {
    join(rendered(fields), " | "@)
}

pub open spec fn bare(key: Seq<char>, value: Seq<char>) -> WireField {
    WireField { key, value, quoted: false }
}

pub open spec fn quoted(key: Seq<char>, value: Seq<char>) -> WireField {
    WireField { key, value, quoted: true }
}

/// A bare field where the value is present, nothing where it is absent.
pub open spec fn optional_bare(key: Seq<char>, value: Option<Seq<char>>) -> Seq<WireField> {
    match value {
        Some(v) => seq![bare(key, v)],
        None => seq![],
    }
}

pub open spec fn optional_quoted(key: Seq<char>, value: Option<Seq<char>>) -> Seq<WireField> {
    match value {
        Some(v) => seq![quoted(key, v)],
        None => seq![],
    }
}

pub open spec fn attest_wire_fields(t: AttestTokenModel) -> Seq<WireField> {
    seq![
        bare("topic"@, t.topic),
        bare("version"@, t.version),
        bare("model"@, t.model),
        bare("ct-required"@, u8_text(t.ct_required)),
        bare("ct-claimed"@, u8_text(t.ct_claimed)),
        bare("result"@, result_text(t.result)),
    ] + optional_bare("proof-system"@, t.proof_system) + optional_bare("proof"@, t.proof)
        + optional_bare("vk-hash"@, t.vk_hash) + optional_bare("sig"@, t.sig)
}

pub open spec fn vouch_wire_fields(t: VouchTokenModel) -> Seq<WireField> {
    seq![
        bare("topic"@, t.topic),
        bare("version"@, t.version),
        bare("vouching-for"@, t.vouching_for),
    ] + optional_quoted("reason"@, t.reason) + seq![bare("sig"@, t.sig)]
}

pub open spec fn replay_wire_fields(t: ReplayFieldsModel) -> Seq<WireField> {
    seq![
        bare("topic"@, t.topic),
        bare("ct-required"@, u8_text(t.ct_required)),
        bare("ct-claimed"@, u8_text(t.ct_claimed)),
    ] + optional_bare("probe-score"@, t.probe_score) + optional_bare("threshold"@, t.threshold)
        + seq![bare("result"@, result_text(t.result))] + optional_bare("enforcer"@, t.enforcer)
}

pub open spec fn challenge_wire_fields(t: ChallengeTokenModel) -> Seq<WireField> {
    seq![bare("topic"@, t.topic), bare("challenge-id"@, t.challenge_id)] + optional_bare(
        "source"@,
        t.source,
    ) + seq![quoted("prompt"@, t.prompt)]
}

pub open spec fn response_wire_fields(t: ResponseTokenModel) -> Seq<WireField> {
    seq![
        bare("challenge-id"@, t.challenge_id),
        bare("respondent"@, t.respondent),
        quoted("body"@, t.body),
    ] + optional_bare("sig"@, t.sig)
}

/// `lead` and the value where the value is present, nothing where it is absent.
pub open spec fn optional_segment(lead: Seq<char>, value: Option<Seq<char>>) -> Seq<char> {
    match value {
        Some(v) => lead + v,
        None => seq![],
    }
}

pub open spec fn self_line(t: SelfTokenModel) -> Seq<char> {
    "MINISKILL-SELF: MODEL "@ + t.model_family + " "@ + t.model_version + " | CT-SELF "@ + u8_text(
        t.ct_self,
    ) + " | topic "@ + t.topic + optional_segment(" | version "@, t.version) + optional_segment(" | ai-key "@, t.ai_key)
}

pub open spec fn attest_line(t: AttestTokenModel) -> Seq<char> {
    "MINISKILL-ATTEST: "@ + fields_text(attest_wire_fields(t))
}

pub open spec fn vouch_line(t: VouchTokenModel) -> Seq<char> {
    "MINISKILL-VOUCH: "@ + fields_text(vouch_wire_fields(t))
}

pub open spec fn replay_line(t: ReplayFieldsModel) -> Seq<char> {
    "MINISKILL-REPLAY: "@ + fields_text(replay_wire_fields(t))
}

pub open spec fn challenge_line(t: ChallengeTokenModel) -> Seq<char> {
    "MINISKILL-CHALLENGE: "@ + fields_text(challenge_wire_fields(t))
}

pub open spec fn response_line(t: ResponseTokenModel) -> Seq<char> {
    "MINISKILL-RESPONSE: "@ + fields_text(response_wire_fields(t))
}

pub open spec fn wire_line(t: WireTokenModel) -> Seq<char> {
    match t {
        WireTokenModel::Self_(t) => self_line(t),
        WireTokenModel::Attest(t) => attest_line(t),
        WireTokenModel::Vouch(t) => vouch_line(t),
        WireTokenModel::Replay(t) => replay_line(t),
        WireTokenModel::Challenge(t) => challenge_line(t),
        WireTokenModel::Response(t) => response_line(t),
    }
}

// ── Building blocks ──────────────────────────────────────────────────────────

pub proof fn lemma_rendered_push(fs: Seq<WireField>, f: WireField)
    ensures
        rendered(fs.push(f)) == rendered(fs).push(render(f)),
{
    assert(rendered(fs.push(f)) =~= rendered(fs).push(render(f)));
}

/// Appends the rendering of `key=value` (quoted or not) to `parts`.
fn push_rendered(parts: &mut Vec<String>, key: &str, value: &str, is_quoted: bool)
    ensures
        strings_model(final(parts)@) == strings_model(old(parts)@).push(
            render(WireField { key: key@, value: value@, quoted: is_quoted }),
        ),
{
    let mut s = String::from_str(key);
    s.append("=");
    if is_quoted {
        s.append("\"");
        s.append(value);
        s.append("\"");
    } else {
        s.append(value);
    }
    let ghost before = old(parts)@;
    parts.push(s);
    assert(strings_model(parts@) =~= strings_model(before).push(s@));
}

/// The parts joined with ` | `.
fn join_parts(parts: &Vec<String>) -> (r: String)
    ensures
        r@ == join(strings_model(parts@), " | "@),
{
    let ghost m = strings_model(parts@);
    let mut r = String::new();
    if parts.len() == 0 {
        return r;
    }
    r.append(parts[0].as_str());
    assert(m.take(1).drop_last() =~= Seq::<Seq<char>>::empty());
    let mut k: usize = 1;
    while k < parts.len()
        invariant
            1 <= k <= parts.len(),
            m == strings_model(parts@),
            r@ == join(m.take(k as int), " | "@),
        decreases parts.len() - k,
    {
        r.append(" | ");
        r.append(parts[k].as_str());
        assert(m.take(k + 1).drop_last() =~= m.take(k as int));
        k = k + 1;
    }
    assert(m.take(parts.len() as int) =~= m);
    r
}

/// The header followed by the parts joined with ` | `.
fn line_of(header: &str, parts: &Vec<String>) -> (r: String)
    ensures
        r@ == header@ + join(strings_model(parts@), " | "@),
{
    let mut r = String::from_str(header);
    let body = join_parts(parts);
    r.append(body.as_str());
    r
}

fn u8_string(n: u8) -> (r: String)
    ensures
        r@ == u8_text(n),
{
    let mut r = String::new();
    push_u8(&mut r, n);
    assert(r@ =~= u8_text(n));
    r
}

// ── Emitters ─────────────────────────────────────────────────────────────────

/// `MINISKILL-SELF: MODEL family version | CT-SELF N | topic slug [| version N] [| ai-key key]`
pub fn emit_self(t: &SelfToken) -> (r: String)
    ensures
        r@ == self_line(t@),
{
    let mut s = String::from_str("MINISKILL-SELF: MODEL ");
    s.append(t.model_family.as_str());
    s.append(" ");
    s.append(t.model_version.as_str());
    s.append(" | CT-SELF ");
    push_u8(&mut s, t.ct_self);
    s.append(" | topic ");
    s.append(t.topic.as_str());
    let ghost base = s@;
    if let Some(v) = &t.version {
        s.append(" | version ");
        s.append(v.as_str());
        assert(s@ =~= base + optional_segment(" | version "@, t@.version));
    } else {
        assert(s@ =~= base + optional_segment(" | version "@, t@.version));
    }
    let ghost base2 = s@;
    if let Some(k) = &t.ai_key {
        s.append(" | ai-key ");
        s.append(k.as_str());
        assert(s@ =~= base2 + optional_segment(" | ai-key "@, t@.ai_key));
    } else {
        assert(s@ =~= base2 + optional_segment(" | ai-key "@, t@.ai_key));
    }
    s
}

/// `MINISKILL-ATTEST: topic=slug | version=N | model=family version | ct-required=N | ct-claimed=N | result=PASS|FAIL [| ...]`
pub fn emit_attest(t: &AttestToken) -> (r: String)
    ensures
        r@ == attest_line(t@),
{
    let mut parts: Vec<String> = Vec::new();
    let ghost mut fs: Seq<WireField> = seq![];
    assert(strings_model(parts@) =~= rendered(fs));
    push_rendered(&mut parts, "topic", t.topic.as_str(), false);
    proof {
        lemma_rendered_push(fs, bare("topic"@, t.topic@));
        fs = fs.push(bare("topic"@, t.topic@));
    }
    push_rendered(&mut parts, "version", t.version.as_str(), false);
    proof {
        lemma_rendered_push(fs, bare("version"@, t.version@));
        fs = fs.push(bare("version"@, t.version@));
    }
    push_rendered(&mut parts, "model", t.model.as_str(), false);
    proof {
        lemma_rendered_push(fs, bare("model"@, t.model@));
        fs = fs.push(bare("model"@, t.model@));
    }
    let ct_required = u8_string(t.ct_required);
    push_rendered(&mut parts, "ct-required", ct_required.as_str(), false);
    proof {
        lemma_rendered_push(fs, bare("ct-required"@, u8_text(t.ct_required)));
        fs = fs.push(bare("ct-required"@, u8_text(t.ct_required)));
    }
    let ct_claimed = u8_string(t.ct_claimed);
    push_rendered(&mut parts, "ct-claimed", ct_claimed.as_str(), false);
    proof {
        lemma_rendered_push(fs, bare("ct-claimed"@, u8_text(t.ct_claimed)));
        fs = fs.push(bare("ct-claimed"@, u8_text(t.ct_claimed)));
    }
    push_rendered(&mut parts, "result", t.result.as_str(), false);
    proof {
        lemma_rendered_push(fs, bare("result"@, result_text(t.result)));
        fs = fs.push(bare("result"@, result_text(t.result)));
    }
    let ghost required = fs;
    if let Some(v) = &t.proof_system {
        push_rendered(&mut parts, "proof-system", v.as_str(), false);
        proof {
            lemma_rendered_push(fs, bare("proof-system"@, v@));
            fs = fs.push(bare("proof-system"@, v@));
        }
    }
    assert(fs =~= required + optional_bare("proof-system"@, t@.proof_system));
    let ghost f1 = fs;
    if let Some(v) = &t.proof {
        push_rendered(&mut parts, "proof", v.as_str(), false);
        proof {
            lemma_rendered_push(fs, bare("proof"@, v@));
            fs = fs.push(bare("proof"@, v@));
        }
    }
    assert(fs =~= f1 + optional_bare("proof"@, t@.proof));
    let ghost f2 = fs;
    if let Some(v) = &t.vk_hash {
        push_rendered(&mut parts, "vk-hash", v.as_str(), false);
        proof {
            lemma_rendered_push(fs, bare("vk-hash"@, v@));
            fs = fs.push(bare("vk-hash"@, v@));
        }
    }
    assert(fs =~= f2 + optional_bare("vk-hash"@, t@.vk_hash));
    let ghost f3 = fs;
    if let Some(v) = &t.sig {
        push_rendered(&mut parts, "sig", v.as_str(), false);
        proof {
            lemma_rendered_push(fs, bare("sig"@, v@));
            fs = fs.push(bare("sig"@, v@));
        }
    }
    assert(fs =~= f3 + optional_bare("sig"@, t@.sig));
    assert(fs =~= attest_wire_fields(t@));
    line_of("MINISKILL-ATTEST: ", &parts)
}

/// `MINISKILL-VOUCH: topic=slug | version=N | vouching-for=sha256:hex [| reason="..."] | sig=base64`
pub fn emit_vouch(t: &VouchToken) -> (r: String)
    ensures
        r@ == vouch_line(t@),
{
    let mut parts: Vec<String> = Vec::new();
    let ghost mut fs: Seq<WireField> = seq![];
    assert(strings_model(parts@) =~= rendered(fs));
    push_rendered(&mut parts, "topic", t.topic.as_str(), false);
    proof {
        lemma_rendered_push(fs, bare("topic"@, t.topic@));
        fs = fs.push(bare("topic"@, t.topic@));
    }
    push_rendered(&mut parts, "version", t.version.as_str(), false);
    proof {
        lemma_rendered_push(fs, bare("version"@, t.version@));
        fs = fs.push(bare("version"@, t.version@));
    }
    push_rendered(&mut parts, "vouching-for", t.vouching_for.as_str(), false);
    proof {
        lemma_rendered_push(fs, bare("vouching-for"@, t.vouching_for@));
        fs = fs.push(bare("vouching-for"@, t.vouching_for@));
    }
    let ghost required = fs;
    if let Some(v) = &t.reason {
        push_rendered(&mut parts, "reason", v.as_str(), true);
        proof {
            lemma_rendered_push(fs, quoted("reason"@, v@));
            fs = fs.push(quoted("reason"@, v@));
        }
    }
    assert(fs =~= required + optional_quoted("reason"@, t@.reason));
    push_rendered(&mut parts, "sig", t.sig.as_str(), false);
    proof {
        lemma_rendered_push(fs, bare("sig"@, t.sig@));
        fs = fs.push(bare("sig"@, t.sig@));
    }
    assert(fs =~= vouch_wire_fields(t@));
    line_of("MINISKILL-VOUCH: ", &parts)
}

/// `MINISKILL-REPLAY: topic=slug | ct-required=N | ct-claimed=N [| probe-score=f] [| threshold=f] | result=PASS|FAIL [| enforcer=...]`,
/// with the scores written as the text they hold.
pub fn emit_replay_fields(t: &ReplayFields) -> (r: String)
    ensures
        r@ == replay_line(t@),
{
    let mut parts: Vec<String> = Vec::new();
    let ghost mut fs: Seq<WireField> = seq![];
    assert(strings_model(parts@) =~= rendered(fs));
    push_rendered(&mut parts, "topic", t.topic.as_str(), false);
    proof {
        lemma_rendered_push(fs, bare("topic"@, t.topic@));
        fs = fs.push(bare("topic"@, t.topic@));
    }
    let ct_required = u8_string(t.ct_required);
    push_rendered(&mut parts, "ct-required", ct_required.as_str(), false);
    proof {
        lemma_rendered_push(fs, bare("ct-required"@, u8_text(t.ct_required)));
        fs = fs.push(bare("ct-required"@, u8_text(t.ct_required)));
    }
    let ct_claimed = u8_string(t.ct_claimed);
    push_rendered(&mut parts, "ct-claimed", ct_claimed.as_str(), false);
    proof {
        lemma_rendered_push(fs, bare("ct-claimed"@, u8_text(t.ct_claimed)));
        fs = fs.push(bare("ct-claimed"@, u8_text(t.ct_claimed)));
    }
    let ghost f0 = fs;
    if let Some(v) = &t.probe_score {
        push_rendered(&mut parts, "probe-score", v.as_str(), false);
        proof {
            lemma_rendered_push(fs, bare("probe-score"@, v@));
            fs = fs.push(bare("probe-score"@, v@));
        }
    }
    assert(fs =~= f0 + optional_bare("probe-score"@, t@.probe_score));
    let ghost f1 = fs;
    if let Some(v) = &t.threshold {
        push_rendered(&mut parts, "threshold", v.as_str(), false);
        proof {
            lemma_rendered_push(fs, bare("threshold"@, v@));
            fs = fs.push(bare("threshold"@, v@));
        }
    }
    assert(fs =~= f1 + optional_bare("threshold"@, t@.threshold));
    push_rendered(&mut parts, "result", t.result.as_str(), false);
    proof {
        lemma_rendered_push(fs, bare("result"@, result_text(t.result)));
        fs = fs.push(bare("result"@, result_text(t.result)));
    }
    let ghost f2 = fs;
    if let Some(v) = &t.enforcer {
        push_rendered(&mut parts, "enforcer", v.as_str(), false);
        proof {
            lemma_rendered_push(fs, bare("enforcer"@, v@));
            fs = fs.push(bare("enforcer"@, v@));
        }
    }
    assert(fs =~= f2 + optional_bare("enforcer"@, t@.enforcer));
    assert(fs =~= replay_wire_fields(t@));
    line_of("MINISKILL-REPLAY: ", &parts)
}

/// `MINISKILL-CHALLENGE: topic=slug | challenge-id=id [| source=...] | prompt="..."`
pub fn emit_challenge(t: &ChallengeToken) -> (r: String)
    ensures
        r@ == challenge_line(t@),
{
    let mut parts: Vec<String> = Vec::new();
    let ghost mut fs: Seq<WireField> = seq![];
    assert(strings_model(parts@) =~= rendered(fs));
    push_rendered(&mut parts, "topic", t.topic.as_str(), false);
    proof {
        lemma_rendered_push(fs, bare("topic"@, t.topic@));
        fs = fs.push(bare("topic"@, t.topic@));
    }
    push_rendered(&mut parts, "challenge-id", t.challenge_id.as_str(), false);
    proof {
        lemma_rendered_push(fs, bare("challenge-id"@, t.challenge_id@));
        fs = fs.push(bare("challenge-id"@, t.challenge_id@));
    }
    let ghost f0 = fs;
    if let Some(v) = &t.source {
        push_rendered(&mut parts, "source", v.as_str(), false);
        proof {
            lemma_rendered_push(fs, bare("source"@, v@));
            fs = fs.push(bare("source"@, v@));
        }
    }
    assert(fs =~= f0 + optional_bare("source"@, t@.source));
    push_rendered(&mut parts, "prompt", t.prompt.as_str(), true);
    proof {
        lemma_rendered_push(fs, quoted("prompt"@, t.prompt@));
        fs = fs.push(quoted("prompt"@, t.prompt@));
    }
    assert(fs =~= challenge_wire_fields(t@));
    line_of("MINISKILL-CHALLENGE: ", &parts)
}

/// `MINISKILL-RESPONSE: challenge-id=id | respondent=model | body="..." [| sig=base64]`
pub fn emit_response(t: &ResponseToken) -> (r: String)
    ensures
        r@ == response_line(t@),
{
    let mut parts: Vec<String> = Vec::new();
    let ghost mut fs: Seq<WireField> = seq![];
    assert(strings_model(parts@) =~= rendered(fs));
    push_rendered(&mut parts, "challenge-id", t.challenge_id.as_str(), false);
    proof {
        lemma_rendered_push(fs, bare("challenge-id"@, t.challenge_id@));
        fs = fs.push(bare("challenge-id"@, t.challenge_id@));
    }
    push_rendered(&mut parts, "respondent", t.respondent.as_str(), false);
    proof {
        lemma_rendered_push(fs, bare("respondent"@, t.respondent@));
        fs = fs.push(bare("respondent"@, t.respondent@));
    }
    push_rendered(&mut parts, "body", t.body.as_str(), true);
    proof {
        lemma_rendered_push(fs, quoted("body"@, t.body@));
        fs = fs.push(quoted("body"@, t.body@));
    }
    let ghost f0 = fs;
    if let Some(v) = &t.sig {
        push_rendered(&mut parts, "sig", v.as_str(), false);
        proof {
            lemma_rendered_push(fs, bare("sig"@, v@));
            fs = fs.push(bare("sig"@, v@));
        }
    }
    assert(fs =~= f0 + optional_bare("sig"@, t@.sig));
    assert(fs =~= response_wire_fields(t@));
    line_of("MINISKILL-RESPONSE: ", &parts)
}

/// The canonical line of a token of any kind.
pub fn emit_wire_token(t: &WireToken) -> (r: String)
    ensures
        r@ == wire_line(t@),
{
    match t {
        WireToken::Self_(t) => emit_self(t),
        WireToken::Attest(t) => emit_attest(t),
        WireToken::Vouch(t) => emit_vouch(t),
        WireToken::Replay(t) => emit_replay_fields(t),
        WireToken::Challenge(t) => emit_challenge(t),
        WireToken::Response(t) => emit_response(t),
    }
}

} // verus!
