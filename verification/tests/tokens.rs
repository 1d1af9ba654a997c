use miniskill_parse::{
    emit_attest, emit_challenge, emit_replay_fields, emit_response, emit_self, emit_vouch,
    emit_wire_token, parse_wire_token, AttestResult, AttestToken, ChallengeToken, ReplayFields,
    ResponseToken, SelfToken, VouchToken, WireToken,
};

fn round_trip(line: &str) {
    let (rest, token) = parse_wire_token(line).expect("parse failed");
    assert!(rest.trim().is_empty(), "unconsumed input: {rest:?}");
    let emitted = emit_wire_token(&token);
    let (rest2, token2) = parse_wire_token(&emitted).expect("re-parse failed");
    assert!(rest2.trim().is_empty());
    assert_eq!(token, token2, "round-trip mismatch");
}

#[test]
fn self_token_basic() {
    round_trip("MINISKILL-SELF: MODEL acme sonnet-4-6 | CT-SELF 3 | topic retro-computing-6502");
}

#[test]
fn self_token_with_version_and_ai_key() {
    round_trip("MINISKILL-SELF: MODEL acme opus-4-7 | CT-SELF 4 | topic cryptography | version 0.0.1 | ai-key abc123");
}

#[test]
fn attest_token_standard_sig() {
    round_trip(
        "MINISKILL-ATTEST: topic=cryptography | version=0.0.1 | model=acme opus-4-7 | \
         ct-required=4 | ct-claimed=4 | result=PASS | sig=aGVsbG8=",
    );
}

#[test]
fn attest_token_volar() {
    round_trip(
        "MINISKILL-ATTEST: topic=cryptography | version=0.0.1 | model=acme opus-4-7 | \
         ct-required=4 | ct-claimed=4 | result=PASS | proof-system=volar | \
         proof=dGVzdA== | vk-hash=sha256:deadbeef",
    );
}

#[test]
fn vouch_token() {
    round_trip(
        r#"MINISKILL-VOUCH: topic=cryptography | version=0.0.1 | vouching-for=sha256:abcd | reason="reviewed and approved" | sig=c2lnbmF0dXJl"#,
    );
}

#[test]
fn replay_token() {
    round_trip(
        "MINISKILL-REPLAY: topic=cryptography | ct-required=4 | ct-claimed=4 | \
         probe-score=0.82 | threshold=0.75 | result=PASS | enforcer=gate.wasm@0.0.1",
    );
}

#[test]
fn challenge_token() {
    let line = r#"MINISKILL-CHALLENGE: topic=cryptography | challenge-id=c7f3a | source=checker-bot | prompt="What is the SID base address?""#;
    let (rest, token) = parse_wire_token(line).expect("parse failed");
    assert!(rest.trim().is_empty());
    if let WireToken::Challenge(c) = token {
        assert_eq!(c.topic, "cryptography");
        assert_eq!(c.challenge_id, "c7f3a");
        assert_eq!(c.source.as_deref(), Some("checker-bot"));
        assert_eq!(c.prompt, "What is the SID base address?");
    } else {
        panic!("wrong token type");
    }
}

#[test]
fn response_token() {
    let line = r#"MINISKILL-RESPONSE: challenge-id=c7f3a | respondent=acme opus-4-7 | body="SID base is $D400""#;
    let (rest, token) = parse_wire_token(line).expect("parse failed");
    assert!(rest.trim().is_empty());
    if let WireToken::Response(r) = token {
        assert_eq!(r.challenge_id, "c7f3a");
        assert_eq!(r.body, "SID base is $D400");
    } else {
        panic!("wrong token type");
    }
}

#[test]
fn result_fail() {
    let line = "MINISKILL-ATTEST: topic=foo | version=0.0.1 | model=gpt-5 | \
                ct-required=3 | ct-claimed=2 | result=FAIL";
    let (_, token) = parse_wire_token(line).expect("parse failed");
    if let WireToken::Attest(a) = token {
        assert_eq!(a.result, AttestResult::Fail);
    } else {
        panic!("wrong token type");
    }
}

// ── Exact readings ───────────────────────────────────────────────────────────

#[test]
fn self_token_fields() {
    let (rest, token) =
        parse_wire_token("MINISKILL-SELF: MODEL acme grand 4 | CT-SELF 4 | topic crypto | version 0.2.1 | ai-key k1")
            .expect("parse failed");
    assert_eq!(rest, "");
    assert_eq!(
        token,
        WireToken::Self_(SelfToken {
            model_family: "acme grand".to_string(),
            model_version: "4".to_string(),
            ct_self: 4,
            topic: "crypto".to_string(),
            version: Some("0.2.1".to_string()),
            ai_key: Some("k1".to_string()),
        })
    );
}

#[test]
fn self_token_later_segments_win_and_unknown_segments_are_ignored() {
    let (_, token) = parse_wire_token(
        "MINISKILL-SELF: MODEL a b | topic one | note hello | topic two | MODEL c | CT-SELF x",
    )
    .expect("parse failed");
    assert_eq!(
        token,
        WireToken::Self_(SelfToken {
            model_family: "c".to_string(),
            model_version: "b".to_string(),
            ct_self: 0,
            topic: "two".to_string(),
            version: None,
            ai_key: None,
        })
    );
}

#[test]
fn self_token_stops_at_newline() {
    let (rest, token) = parse_wire_token("MINISKILL-SELF: MODEL a b | CT-SELF 300\nmore")
        .expect("parse failed");
    assert_eq!(rest, "\nmore");
    if let WireToken::Self_(t) = token {
        assert_eq!(t.ct_self, 0);
    } else {
        panic!("wrong token type");
    }
}

#[test]
fn self_token_needs_a_segment() {
    assert!(parse_wire_token("MINISKILL-SELF:").is_none());
    assert!(parse_wire_token("MINISKILL-SELF: | MODEL a b").is_none());
}

#[test]
fn kv_token_leaves_what_follows() {
    let line = "MINISKILL-CHALLENGE: topic=t | challenge-id=c | prompt=\"p\" trailing";
    let (rest, token) = parse_wire_token(line).expect("parse failed");
    assert_eq!(rest, " trailing");
    if let WireToken::Challenge(c) = token {
        assert_eq!(c.prompt, "p");
        assert_eq!(c.source, None);
    } else {
        panic!("wrong token type");
    }
}

#[test]
fn last_duplicate_key_wins() {
    let line = "MINISKILL-VOUCH: topic=a | version=1 | vouching-for=h | sig=s1 | topic=b";
    let (_, token) = parse_wire_token(line).expect("parse failed");
    if let WireToken::Vouch(v) = token {
        assert_eq!(v.topic, "b");
        assert_eq!(v.reason, None);
        assert_eq!(v.sig, "s1");
    } else {
        panic!("wrong token type");
    }
}

#[test]
fn missing_required_field_refuses_the_line() {
    assert!(parse_wire_token("MINISKILL-ATTEST: topic=a | version=1 | model=m | ct-required=1 | result=PASS").is_none());
    assert!(parse_wire_token("MINISKILL-CHALLENGE: topic=a | challenge-id=c").is_none());
    assert!(parse_wire_token("MINISKILL-VOUCH: topic=a | version=1 | vouching-for=h").is_none());
}

#[test]
fn bad_numbers_and_results_refuse_the_line() {
    let base = "MINISKILL-REPLAY: topic=a | ct-claimed=1 | result=PASS | ct-required=";
    assert!(parse_wire_token(&format!("{base}256")).is_none());
    assert!(parse_wire_token(&format!("{base}-1")).is_none());
    assert!(parse_wire_token(&format!("{base}+7")).is_some());
    assert!(parse_wire_token("MINISKILL-REPLAY: topic=a | ct-claimed=1 | ct-required=2 | result=MAYBE").is_none());
}

#[test]
fn response_body_falls_back_to_response_then_empty() {
    let (_, t) = parse_wire_token("MINISKILL-RESPONSE: challenge-id=c | respondent=r | response=\"x\"")
        .expect("parse failed");
    if let WireToken::Response(r) = t {
        assert_eq!(r.body, "x");
    } else {
        panic!("wrong token type");
    }
    let (_, t) = parse_wire_token("MINISKILL-RESPONSE: challenge-id=c | respondent=r").expect("parse failed");
    if let WireToken::Response(r) = t {
        assert_eq!(r.body, "");
        assert_eq!(r.sig, None);
    } else {
        panic!("wrong token type");
    }
}

#[test]
fn replay_scores_are_kept_as_text() {
    let line = "MINISKILL-REPLAY: topic=t | ct-required=4 | ct-claimed=3 | probe-score=0.5 | result=FAIL";
    let (_, t) = parse_wire_token(line).expect("parse failed");
    assert_eq!(
        t,
        WireToken::Replay(ReplayFields {
            topic: "t".to_string(),
            ct_required: 4,
            ct_claimed: 3,
            probe_score: Some("0.5".to_string()),
            threshold: None,
            result: AttestResult::Fail,
            enforcer: None,
        })
    );
}

#[test]
fn unknown_lines_are_refused() {
    assert!(parse_wire_token("").is_none());
    assert!(parse_wire_token("MINISKILL-OTHER: a=b").is_none());
    assert!(parse_wire_token(" MINISKILL-SELF: MODEL a b").is_none());
}

// ── Exact writings ───────────────────────────────────────────────────────────

#[test]
fn emit_self_exact() {
    let t = SelfToken {
        model_family: "acme".to_string(),
        model_version: "opus-4-7".to_string(),
        ct_self: 255,
        topic: "crypto".to_string(),
        version: None,
        ai_key: Some("k".to_string()),
    };
    assert_eq!(emit_self(&t), "MINISKILL-SELF: MODEL acme opus-4-7 | CT-SELF 255 | topic crypto | ai-key k");
}

#[test]
fn emit_attest_exact() {
    let t = AttestToken {
        topic: "a".to_string(),
        version: "1".to_string(),
        model: "m x".to_string(),
        ct_required: 10,
        ct_claimed: 0,
        result: AttestResult::Pass,
        proof_system: None,
        proof: Some("p".to_string()),
        vk_hash: None,
        sig: Some("s".to_string()),
    };
    assert_eq!(
        emit_attest(&t),
        "MINISKILL-ATTEST: topic=a | version=1 | model=m x | ct-required=10 | ct-claimed=0 | result=PASS | proof=p | sig=s"
    );
}

#[test]
fn emit_vouch_challenge_response_exact() {
    let v = VouchToken {
        topic: "a".to_string(),
        version: "1".to_string(),
        vouching_for: "sha256:ff".to_string(),
        reason: Some("ok | fine".to_string()),
        sig: "s".to_string(),
    };
    assert_eq!(emit_vouch(&v), "MINISKILL-VOUCH: topic=a | version=1 | vouching-for=sha256:ff | reason=\"ok | fine\" | sig=s");
    let c = ChallengeToken {
        topic: "a".to_string(),
        challenge_id: "c".to_string(),
        source: None,
        prompt: "Why?".to_string(),
    };
    assert_eq!(emit_challenge(&c), "MINISKILL-CHALLENGE: topic=a | challenge-id=c | prompt=\"Why?\"");
    let r = ResponseToken {
        challenge_id: "c".to_string(),
        respondent: "m".to_string(),
        body: "".to_string(),
        sig: Some("s".to_string()),
    };
    assert_eq!(emit_response(&r), "MINISKILL-RESPONSE: challenge-id=c | respondent=m | body=\"\" | sig=s");
}

#[test]
fn emit_replay_fields_exact() {
    let t = ReplayFields {
        topic: "t".to_string(),
        ct_required: 4,
        ct_claimed: 4,
        probe_score: Some("0.82".to_string()),
        threshold: None,
        result: AttestResult::Fail,
        enforcer: Some("gate.wasm@0.0.1".to_string()),
    };
    assert_eq!(
        emit_replay_fields(&t),
        "MINISKILL-REPLAY: topic=t | ct-required=4 | ct-claimed=4 | probe-score=0.82 | result=FAIL | enforcer=gate.wasm@0.0.1"
    );
}

#[test]
fn written_tokens_read_back() {
    let tokens = vec![
        WireToken::Vouch(VouchToken {
            topic: "a".to_string(),
            version: "1".to_string(),
            vouching_for: "h".to_string(),
            reason: Some("has | pipe and\nnewline".to_string()),
            sig: "s".to_string(),
        }),
        WireToken::Self_(SelfToken {
            model_family: "".to_string(),
            model_version: "".to_string(),
            ct_self: 7,
            topic: "".to_string(),
            version: None,
            ai_key: None,
        }),
        WireToken::Response(ResponseToken {
            challenge_id: "c".to_string(),
            respondent: "r".to_string(),
            body: "".to_string(),
            sig: None,
        }),
    ];
    for t in tokens {
        let line = emit_wire_token(&t);
        let (rest, back) = parse_wire_token(&line).expect("parse failed");
        assert_eq!(rest, "");
        assert_eq!(back, t);
    }
}

#[test]
fn result_as_str() {
    assert_eq!(AttestResult::Pass.as_str(), "PASS");
    assert_eq!(AttestResult::Fail.as_str(), "FAIL");
}

#[test]
fn ai_key_is_read_in_both_forms() {
    let spaced = "MINISKILL-SELF: MODEL acme opus-4-7 | CT-SELF 4 | topic cryptography | version 0.0.1 | ai-key abc123";
    let keyed = "MINISKILL-SELF: MODEL acme opus-4-7 | CT-SELF 4 | topic cryptography | version 0.0.1 | ai-key=abc123";
    let expected = SelfToken {
        model_family: "acme".to_string(),
        model_version: "opus-4-7".to_string(),
        ct_self: 4,
        topic: "cryptography".to_string(),
        version: Some("0.0.1".to_string()),
        ai_key: Some("abc123".to_string()),
    };
    for line in [spaced, keyed] {
        let (rest, token) = parse_wire_token(line).expect("parse failed");
        assert_eq!(rest, "");
        assert_eq!(token, WireToken::Self_(expected.clone()));
    }
}

#[test]
fn self_segments_in_any_order_give_the_same_token() {
    let segs = ["MODEL acme sonnet-4-6", "CT-SELF 3", "topic retro-computing-6502"];
    let orders = [[0, 1, 2], [0, 2, 1], [1, 0, 2], [1, 2, 0], [2, 0, 1], [2, 1, 0]];
    let base = parse_wire_token("MINISKILL-SELF: MODEL acme sonnet-4-6 | CT-SELF 3 | topic retro-computing-6502")
        .expect("parse failed")
        .1;
    for o in orders {
        let line = format!("MINISKILL-SELF: {} | {} | {}", segs[o[0]], segs[o[1]], segs[o[2]]);
        let (rest, token) = parse_wire_token(&line).expect("parse failed");
        assert_eq!(rest, "");
        assert_eq!(token, base);
    }
}

#[test]
fn challenge_prompt_may_stand_without_a_key() {
    let line = r#"MINISKILL-CHALLENGE: topic=cryptography | challenge-id=c7f3a | "Explain why HKDF is used""#;
    let (rest, token) = parse_wire_token(line).expect("parse failed");
    assert_eq!(rest, "");
    assert_eq!(
        token,
        WireToken::Challenge(ChallengeToken {
            topic: "cryptography".to_string(),
            challenge_id: "c7f3a".to_string(),
            source: None,
            prompt: "Explain why HKDF is used".to_string(),
        })
    );
    let with_source = r#"MINISKILL-CHALLENGE: topic=cryptography | challenge-id=c7f3a | source=checker-bot | "Why is the base $D400?""#;
    match parse_wire_token(with_source).expect("parse failed") {
        (rest, WireToken::Challenge(c)) => {
            assert_eq!(rest, "");
            assert_eq!(c.source.as_deref(), Some("checker-bot"));
            assert_eq!(c.prompt, "Why is the base $D400?");
        }
        _ => panic!("wrong token type"),
    }
    let no_prompt = "MINISKILL-CHALLENGE: topic=cryptography | challenge-id=c7f3a";
    assert!(parse_wire_token(no_prompt).is_none());
}

#[test]
fn response_body_may_stand_without_a_key() {
    let line = r#"MINISKILL-RESPONSE: challenge-id=c7f3a | respondent=acme opus-4-7 | "SID base is $D400""#;
    let (rest, token) = parse_wire_token(line).expect("parse failed");
    assert_eq!(rest, "");
    assert_eq!(
        token,
        WireToken::Response(ResponseToken {
            challenge_id: "c7f3a".to_string(),
            respondent: "acme opus-4-7".to_string(),
            body: "SID base is $D400".to_string(),
            sig: None,
        })
    );
    let signed = r#"MINISKILL-RESPONSE: challenge-id=c7f3a | respondent=acme opus-4-7 | "body text" | sig=c2ln"#;
    match parse_wire_token(signed).expect("parse failed") {
        (rest, WireToken::Response(r)) => {
            assert_eq!(rest, "");
            assert_eq!(r.body, "body text");
            assert_eq!(r.sig.as_deref(), Some("c2ln"));
        }
        _ => panic!("wrong token type"),
    }
}

#[test]
fn a_quoted_item_without_key_is_read_only_where_a_prompt_or_body_stands() {
    // In an ATTEST line a lone quoted item ends the list: what follows it is lost.
    let cut = r#"MINISKILL-ATTEST: topic=a | "q" | version=0.0.1 | model=m | ct-required=1 | ct-claimed=1 | result=PASS"#;
    assert!(parse_wire_token(cut).is_none());
    // A quoted key keeps its quotes and the list goes on.
    let quoted_key = r#"MINISKILL-ATTEST: topic=a | "q"=v | version=0.0.1 | model=m | ct-required=1 | ct-claimed=1 | result=PASS"#;
    let (rest, token) = parse_wire_token(quoted_key).expect("parse failed");
    assert_eq!(rest, "");
    assert!(matches!(token, WireToken::Attest(_)));
    // A trailing lone quoted item after a complete ATTEST line stays in the rest.
    let trailing = r#"MINISKILL-ATTEST: topic=a | version=0.0.1 | model=m | ct-required=1 | ct-claimed=1 | result=PASS | "note""#;
    let (rest, _) = parse_wire_token(trailing).expect("parse failed");
    assert_eq!(rest, r#"| "note""#);
    // A CHALLENGE prompt without a key must be the last item.
    let not_last = r#"MINISKILL-CHALLENGE: topic=t | challenge-id=c | "p" | source=x"#;
    let (rest, token) = parse_wire_token(not_last).expect("parse failed");
    assert_eq!(rest, " | source=x");
    match token {
        WireToken::Challenge(c) => {
            assert_eq!(c.prompt, "p");
            assert_eq!(c.source, None);
        }
        _ => panic!("wrong token type"),
    }
}
