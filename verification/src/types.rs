//! The values that the parsers produce and the emitters consume, each with the
//! mathematical model (`@`) that the contracts speak of.

use vstd::prelude::*;

verus! {

// ── Miniskill file ───────────────────────────────────────────────────────────

/// A parsed `.ms.md` file.
pub struct MiniskillFile {
    pub meta: MiniskillMeta,
    /// Raw text of the `## Skill` section (everything between front-matter and `---gate---`).
    pub skill: String,
    /// Raw text of the `## Gate` section (everything after `---gate---`).
    pub gate: String,
}

/// The YAML front-matter of a miniskill file.
#[derive(Debug, Clone, PartialEq)]
pub struct MiniskillMeta {
    pub name: String,
    pub version: String,
    pub topic_class: TopicClass,
    pub ct: u8,
    pub it: u8,
    pub enforcer: Option<String>,
    pub enforcer_vk: Option<String>,
    pub zk_proof_system: Option<ZkProofSystem>,
    pub status: Option<Status>,
}

#[derive(Debug, Clone, PartialEq)]
pub enum TopicClass {
    FrozenKnowledge,
    SparseCoverage,
    RapidlyEvolving,
    HighStakesPrecision,
    AdversarialCorpus,
    ModelPersonalitySensitive,
}

#[derive(Debug, Clone, PartialEq)]
pub enum ZkProofSystem {
    Volar,
    /// No proof system (`none` in the front-matter).
    None_,
}

#[derive(Debug, Clone, PartialEq)]
pub enum Status {
    Deprecated,
}

// ── AGENTS.md link ───────────────────────────────────────────────────────────

/// A parsed `[miniskill: slug](path) <!-- scope=glob,glob -->` line.
#[derive(Debug, Clone, PartialEq)]
pub struct AgentLink {
    pub slug: String,
    /// Relative path to the `.ms.md` file from the repo root.
    pub path: String,
    /// Glob patterns declared in the `scope=` attribute.
    pub scope: Vec<String>,
}

pub struct AgentLinkModel {
    pub slug: Seq<char>,
    pub path: Seq<char>,
    pub scope: Seq<Seq<char>>,
}

impl View for AgentLink {
    type V = AgentLinkModel;

    open spec fn view(&self) -> AgentLinkModel {
        AgentLinkModel {
            slug: self.slug@,
            path: self.path@,
            scope: self.scope@.map_values(|g: String| g@),
        }
    }
}

// ── Tokens ───────────────────────────────────────────────────────────────────

#[derive(Debug, Clone, PartialEq)]
pub enum AttestResult {
    Pass,
    Fail,
}

/// The wire text of a result.
pub open spec fn result_text(r: AttestResult) -> Seq<char> {
    match r {
        AttestResult::Pass => "PASS"@,
        AttestResult::Fail => "FAIL"@,
    }
}

impl AttestResult {
    pub fn as_str(&self) -> (s: &'static str)
        ensures
            s@ == result_text(*self),
    {
        match self {
            AttestResult::Pass => "PASS",
            AttestResult::Fail => "FAIL",
        }
    }
}

/// `MINISKILL-SELF: MODEL family version | CT-SELF N | topic slug [| version N] [| ai-key key]`;
/// the AI key is also read when written `ai-key=key`.
#[derive(Debug, Clone, PartialEq)]
pub struct SelfToken {
    pub model_family: String,
    pub model_version: String,
    pub ct_self: u8,
    pub topic: String,
    pub version: Option<String>,
    pub ai_key: Option<String>,
}

pub struct SelfTokenModel {
    pub model_family: Seq<char>,
    pub model_version: Seq<char>,
    pub ct_self: u8,
    pub topic: Seq<char>,
    pub version: Option<Seq<char>>,
    pub ai_key: Option<Seq<char>>,
}

impl View for SelfToken {
    type V = SelfTokenModel;

    open spec fn view(&self) -> SelfTokenModel {
        SelfTokenModel {
            model_family: self.model_family@,
            model_version: self.model_version@,
            ct_self: self.ct_self,
            topic: self.topic@,
            version: self.version.deep_view(),
            ai_key: self.ai_key.deep_view(),
        }
    }
}

/// `MINISKILL-ATTEST: topic=slug | version=N | model=family version | ct-required=N | ct-claimed=N | result=PASS|FAIL | ...`
#[derive(Debug, Clone, PartialEq)]
pub struct AttestToken {
    pub topic: String,
    pub version: String,
    pub model: String,
    pub ct_required: u8,
    pub ct_claimed: u8,
    pub result: AttestResult,
    pub proof_system: Option<String>,
    /// Base64-encoded V̂ list (volar ZK proof).
    pub proof: Option<String>,
    /// `"sha256:hex"` hash of the `.vk` file.
    pub vk_hash: Option<String>,
    /// Base64-encoded Ed25519 signature (standard-sig enforcers only).
    pub sig: Option<String>,
}

pub struct AttestTokenModel {
    pub topic: Seq<char>,
    pub version: Seq<char>,
    pub model: Seq<char>,
    pub ct_required: u8,
    pub ct_claimed: u8,
    pub result: AttestResult,
    pub proof_system: Option<Seq<char>>,
    pub proof: Option<Seq<char>>,
    pub vk_hash: Option<Seq<char>>,
    pub sig: Option<Seq<char>>,
}

impl View for AttestToken {
    type V = AttestTokenModel;

    open spec fn view(&self) -> AttestTokenModel {
        AttestTokenModel {
            topic: self.topic@,
            version: self.version@,
            model: self.model@,
            ct_required: self.ct_required,
            ct_claimed: self.ct_claimed,
            result: self.result,
            proof_system: self.proof_system.deep_view(),
            proof: self.proof.deep_view(),
            vk_hash: self.vk_hash.deep_view(),
            sig: self.sig.deep_view(),
        }
    }
}

/// `MINISKILL-VOUCH: topic=slug | version=N | vouching-for=sha256:hex | reason="..." | sig=base64`
#[derive(Debug, Clone, PartialEq)]
pub struct VouchToken {
    pub topic: String,
    pub version: String,
    pub vouching_for: String,
    pub reason: Option<String>,
    pub sig: String,
}

pub struct VouchTokenModel {
    pub topic: Seq<char>,
    pub version: Seq<char>,
    pub vouching_for: Seq<char>,
    pub reason: Option<Seq<char>>,
    pub sig: Seq<char>,
}

impl View for VouchToken {
    type V = VouchTokenModel;

    open spec fn view(&self) -> VouchTokenModel {
        VouchTokenModel {
            topic: self.topic@,
            version: self.version@,
            vouching_for: self.vouching_for@,
            reason: self.reason.deep_view(),
            sig: self.sig@,
        }
    }
}

/// The fields of `MINISKILL-REPLAY: topic=slug | ct-required=N | ct-claimed=N | probe-score=f | threshold=f | result=PASS|FAIL | enforcer=path@ver`,
/// with the two scores kept as the text that stands on the wire.
#[derive(Debug, Clone, PartialEq)]
pub struct ReplayFields {
    pub topic: String,
    pub ct_required: u8,
    pub ct_claimed: u8,
    pub probe_score: Option<String>,
    pub threshold: Option<String>,
    pub result: AttestResult,
    pub enforcer: Option<String>,
}

pub struct ReplayFieldsModel {
    pub topic: Seq<char>,
    pub ct_required: u8,
    pub ct_claimed: u8,
    pub probe_score: Option<Seq<char>>,
    pub threshold: Option<Seq<char>>,
    pub result: AttestResult,
    pub enforcer: Option<Seq<char>>,
}

impl View for ReplayFields {
    type V = ReplayFieldsModel;

    open spec fn view(&self) -> ReplayFieldsModel {
        ReplayFieldsModel {
            topic: self.topic@,
            ct_required: self.ct_required,
            ct_claimed: self.ct_claimed,
            probe_score: self.probe_score.deep_view(),
            threshold: self.threshold.deep_view(),
            result: self.result,
            enforcer: self.enforcer.deep_view(),
        }
    }
}

/// `MINISKILL-CHALLENGE: topic=slug | challenge-id=id [| source=checker-bot] | "prompt text"`;
/// the prompt may also be written `prompt="prompt text"`.
#[derive(Debug, Clone, PartialEq)]
pub struct ChallengeToken {
    pub topic: String,
    pub challenge_id: String,
    /// `"checker-bot"` when posted by the checker bot; absent for runtime-issued challenges.
    pub source: Option<String>,
    pub prompt: String,
}

pub struct ChallengeTokenModel {
    pub topic: Seq<char>,
    pub challenge_id: Seq<char>,
    pub source: Option<Seq<char>>,
    pub prompt: Seq<char>,
}

impl View for ChallengeToken {
    type V = ChallengeTokenModel;

    open spec fn view(&self) -> ChallengeTokenModel {
        ChallengeTokenModel {
            topic: self.topic@,
            challenge_id: self.challenge_id@,
            source: self.source.deep_view(),
            prompt: self.prompt@,
        }
    }
}

/// `MINISKILL-RESPONSE: challenge-id=id | respondent=model | "body" [| sig=base64]`;
/// the body may also be written `body="body"` (or `response="body"`).
#[derive(Debug, Clone, PartialEq)]
pub struct ResponseToken {
    pub challenge_id: String,
    pub respondent: String,
    pub body: String,
    pub sig: Option<String>,
}

pub struct ResponseTokenModel {
    pub challenge_id: Seq<char>,
    pub respondent: Seq<char>,
    pub body: Seq<char>,
    pub sig: Option<Seq<char>>,
}

impl View for ResponseToken {
    type V = ResponseTokenModel;

    open spec fn view(&self) -> ResponseTokenModel {
        ResponseTokenModel {
            challenge_id: self.challenge_id@,
            respondent: self.respondent@,
            body: self.body@,
            sig: self.sig.deep_view(),
        }
    }
}

/// One token line, of any of the six kinds.
#[derive(Debug, Clone, PartialEq)]
pub enum WireToken {
    Self_(SelfToken),
    Attest(AttestToken),
    Vouch(VouchToken),
    Replay(ReplayFields),
    Challenge(ChallengeToken),
    Response(ResponseToken),
}

pub enum WireTokenModel {
    Self_(SelfTokenModel),
    Attest(AttestTokenModel),
    Vouch(VouchTokenModel),
    Replay(ReplayFieldsModel),
    Challenge(ChallengeTokenModel),
    Response(ResponseTokenModel),
}

impl View for WireToken {
    type V = WireTokenModel;

    open spec fn view(&self) -> WireTokenModel {
        match self {
            WireToken::Self_(t) => WireTokenModel::Self_(t@),
            WireToken::Attest(t) => WireTokenModel::Attest(t@),
            WireToken::Vouch(t) => WireTokenModel::Vouch(t@),
            WireToken::Replay(t) => WireTokenModel::Replay(t@),
            WireToken::Challenge(t) => WireTokenModel::Challenge(t@),
            WireToken::Response(t) => WireTokenModel::Response(t@),
        }
    }
}

} // verus!
