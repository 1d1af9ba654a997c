use miniskill_parse::{
    assemble_miniskill_file, extract_frontmatter, split_on_gate_delimiter, MiniskillMeta,
    ParseError, TopicClass,
};

const SAMPLE: &str = r#"---
name: retro-computing-6502
version: 0.0.1
topic-class: frozen-knowledge
ct: 3
it: 2
enforcer: retro-computing-6502.gate.wasm
enforcer-vk: retro-computing-6502.gate.wasm.vk
---

## Skill

This is the skill section.

---gate---

## Gate

This is gate section text.
"#;

fn meta() -> MiniskillMeta {
    MiniskillMeta {
        name: "retro-computing-6502".to_string(),
        version: "0.0.1".to_string(),
        topic_class: TopicClass::FrozenKnowledge,
        ct: 3,
        it: 2,
        enforcer: None,
        enforcer_vk: None,
        zk_proof_system: None,
        status: None,
    }
}

#[test]
fn frontmatter_text_and_rest() {
    let (rest, yaml) = extract_frontmatter(SAMPLE).expect("should parse");
    assert_eq!(
        yaml,
        "name: retro-computing-6502\nversion: 0.0.1\ntopic-class: frozen-knowledge\nct: 3\nit: 2\nenforcer: retro-computing-6502.gate.wasm\nenforcer-vk: retro-computing-6502.gate.wasm.vk"
    );
    assert!(rest.starts_with("\n\n## Skill"));
}

#[test]
fn parses_skill_and_gate() {
    let (rest, _) = extract_frontmatter(SAMPLE).expect("should parse");
    let f = assemble_miniskill_file(meta(), rest).expect("should parse");
    assert!(f.skill.contains("skill section"));
    assert!(f.gate.contains("gate section"));
    assert!(!f.skill.contains("gate section"));
    assert!(!f.gate.contains("skill section"));
    assert_eq!(f.skill, "## Skill\n\nThis is the skill section.");
    assert_eq!(f.gate, "## Gate\n\nThis is gate section text.");
    assert_eq!(f.meta, meta());
}

#[test]
fn missing_gate_delimiter() {
    let src = "---\nname: x\nversion: 0.0.1\ntopic-class: frozen-knowledge\nct: 1\nit: 1\n---\n\nno gate here\n";
    let (rest, _) = extract_frontmatter(src).expect("front-matter");
    assert!(matches!(
        assemble_miniskill_file(meta(), rest),
        Err(ParseError::MissingGateDelimiter)
    ));
}

#[test]
fn split_takes_the_first_delimiter() {
    let (skill, gate) = split_on_gate_delimiter("a \n---gate---\n\nb---gate---c").expect("split");
    assert_eq!(skill, "a");
    assert_eq!(gate, "b---gate---c");
    assert!(matches!(split_on_gate_delimiter("none"), Err(ParseError::MissingGateDelimiter)));
}

#[test]
fn frontmatter_errors_carry_nom_reports() {
    match extract_frontmatter("no marker") {
        Err(ParseError::Nom(m)) => {
            assert_eq!(m, "Parsing Error: Error { input: \"no marker\", code: Tag }")
        }
        _ => panic!("expected a nom error"),
    }
    match extract_frontmatter("---x") {
        Err(ParseError::Nom(m)) => assert_eq!(m, "Parsing Error: Error { input: \"x\", code: Char }"),
        _ => panic!("expected a nom error"),
    }
    match extract_frontmatter("---\nname: x\n") {
        Err(ParseError::Nom(m)) => {
            assert_eq!(m, "Parsing Error: Error { input: \"name: x\\n\", code: TakeUntil }")
        }
        _ => panic!("expected a nom error"),
    }
}

#[test]
fn error_messages() {
    assert_eq!(ParseError::Nom("x".to_string()).to_string(), "parse error: x");
    assert_eq!(
        ParseError::MissingGateDelimiter.to_string(),
        "missing `---gate---` delimiter"
    );
    let e = serde_yaml::from_str::<serde_yaml::Value>("a: [").unwrap_err();
    let expected = format!("front-matter YAML error: {e}");
    let m = ParseError::Yaml(e).to_string();
    assert_eq!(m, expected);
    assert!(m.len() > "front-matter YAML error: ".len());
}
