use miniskill_parse::parse_agent_link_line;

#[test]
fn basic_link_with_scope() {
    let line = "[miniskill: retro-computing-6502](.miniskills/retro-computing-6502.ms.md) <!-- scope=src/asm/**,*.s,*.asm -->";
    let link = parse_agent_link_line(line).expect("should parse");
    assert_eq!(link.slug, "retro-computing-6502");
    assert_eq!(link.path, ".miniskills/retro-computing-6502.ms.md");
    assert_eq!(link.scope, vec!["src/asm/**", "*.s", "*.asm"]);
}

#[test]
fn link_without_scope() {
    let line = "[miniskill: conlang](.miniskills/conlang.ms.md)";
    let link = parse_agent_link_line(line).expect("should parse");
    assert_eq!(link.slug, "conlang");
    assert_eq!(link.path, ".miniskills/conlang.ms.md");
    assert!(link.scope.is_empty());
}

#[test]
fn non_link_line_returns_none() {
    assert!(parse_agent_link_line("## Miniskills").is_none());
    assert!(parse_agent_link_line("").is_none());
    assert!(parse_agent_link_line("[not a miniskill](somewhere)").is_none());
}

#[test]
fn link_with_description() {
    let line = "[miniskill: cryptography](.miniskills/cryptography.ms.md) <!-- scope=src/crypto/** -->";
    let link = parse_agent_link_line(line).expect("should parse");
    assert_eq!(link.slug, "cryptography");
    assert_eq!(link.scope, vec!["src/crypto/**"]);
}

#[test]
fn surrounding_whitespace_is_ignored() {
    let line = "   [miniskill:conlang](  .miniskills/conlang.ms.md  )\t  ";
    let link = parse_agent_link_line(line).expect("should parse");
    assert_eq!(link.slug, "conlang");
    assert_eq!(link.path, ".miniskills/conlang.ms.md");
    assert!(link.scope.is_empty());
}

#[test]
fn scope_globs_keep_hyphens_and_text_before_close_is_skipped() {
    let line = "[miniskill: x](p) <!-- scope=src/a-b,c note -->";
    let link = parse_agent_link_line(line).expect("should parse");
    assert_eq!(link.scope, vec!["src/a-b", "c"]);
}

#[test]
fn scope_glob_with_hyphen_runs_to_the_close() {
    let line = "[miniskill: retro](.miniskills/retro.ms.md) <!-- scope=src/retro-asm/**,*.s -->";
    let link = parse_agent_link_line(line).expect("should parse");
    assert_eq!(link.slug, "retro");
    assert_eq!(link.path, ".miniskills/retro.ms.md");
    assert_eq!(link.scope, vec!["src/retro-asm/**", "*.s"]);
    let tight = "[miniskill: x](p) <!-- scope=a-b,c-->";
    assert_eq!(parse_agent_link_line(tight).expect("should parse").scope, vec!["a-b", "c"]);
    let angle = "[miniskill: x](p) <!-- scope=a>b,c -->";
    assert_eq!(parse_agent_link_line(angle).expect("should parse").scope, vec!["a"]);
    let tab = "[miniskill: x](p) <!-- scope=a\tb,c -->";
    assert_eq!(parse_agent_link_line(tab).expect("should parse").scope, vec!["a\tb", "c"]);
}

#[test]
fn unterminated_scope_comment_gives_empty_scope() {
    let line = "[miniskill: x](p) <!-- scope=a,b";
    let link = parse_agent_link_line(line).expect("should parse");
    assert!(link.scope.is_empty());
    let line2 = "[miniskill: x](p) <!-- other=a -->";
    assert!(parse_agent_link_line(line2).expect("should parse").scope.is_empty());
}

#[test]
fn missing_brackets_or_parens_give_none() {
    assert!(parse_agent_link_line("[miniskill: x").is_none());
    assert!(parse_agent_link_line("[miniskill: x] (p)").is_none());
    assert!(parse_agent_link_line("[miniskill: x](p").is_none());
}

#[test]
fn trailing_text_after_link_is_ignored() {
    let line = "[miniskill: a](b) trailing words";
    let link = parse_agent_link_line(line).expect("should parse");
    assert_eq!(link.slug, "a");
    assert_eq!(link.path, "b");
    assert!(link.scope.is_empty());
}
