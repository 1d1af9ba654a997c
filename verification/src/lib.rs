//! Parsers and emitters for the machine-readable miniskill syntax: the
//! front-matter framing of `.ms.md` files, AGENTS.md link lines, and the
//! `MINISKILL-*` token lines.

pub mod agents;
pub mod emitter;
pub mod file;
pub mod kv;
pub mod forms;
pub mod laws;
pub mod text;
pub mod tokens;
pub mod types;

pub use agents::parse_agent_link_line;
pub use emitter::{
    emit_attest, emit_challenge, emit_replay_fields, emit_response, emit_self, emit_vouch,
    emit_wire_token,
};
pub use file::{assemble_miniskill_file, extract_frontmatter, split_on_gate_delimiter, ParseError};
pub use tokens::parse_wire_token;
pub use types::{
    AgentLink, AttestResult, AttestToken, ChallengeToken, MiniskillFile, MiniskillMeta,
    ReplayFields, ResponseToken, SelfToken, Status, TopicClass, VouchToken, WireToken,
    ZkProofSystem,
};
