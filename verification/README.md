# miniskill-parse

Parsers and emitters for the machine-readable parts of the miniskill format,
written in Verus and proved against their contracts:

- the front-matter framing of `.ms.md` files (`---` markers, the
  `---gate---` split into skill and gate sections);
- AGENTS.md link lines, `[miniskill: slug](path) <!-- scope=glob,glob -->`;
- the `MINISKILL-*` token lines (SELF, ATTEST, VOUCH, REPLAY, CHALLENGE,
  RESPONSE), read and written.

## Layout

- `src/text.rs` — characters, trimming, substring search, `u8` text.
- `src/types.rs` — the data types and their mathematical models.
- `src/kv.rs` — the `key=value | ...` grammar and field lookups.
- `src/tokens.rs` — the token readers; `parse_wire_token` reads any kind.
- `src/emitter.rs` — the token writers.
- `src/agents.rs` — AGENTS.md link lines.
- `src/file.rs` — front-matter and section framing, `ParseError`.
- `src/laws.rs` — properties across functions: every token written reads
  back as itself, SELF segments may come in any order, a body splits at its
  first `---gate---`.
- `app/` — what stands outside the proofs: YAML deserialisation of the
  front-matter with serde, and the floating-point scores of REPLAY tokens.
- `tests/` — executable tests of the library.
