use miniskill_parse::kv::{kv_get, kv_require, parse_kv_pairs, parse_result_field, parse_u8_field};
use miniskill_parse::text::chars_of;
use miniskill_parse::AttestResult;

fn pairs(s: &str) -> Vec<(String, String)> {
    let c = chars_of(s);
    parse_kv_pairs(&c, 0).expect("pairs").1
}

#[test]
fn pairs_quoted_and_bare() {
    let kv = pairs("a = 1 | b=\"x | y\" |c=  z  ");
    assert_eq!(
        kv,
        vec![
            ("a".to_string(), "1".to_string()),
            ("b".to_string(), "x | y".to_string()),
            ("c".to_string(), "z".to_string()),
        ]
    );
}

#[test]
fn pairs_stop_before_a_bad_item() {
    let c = chars_of("a=1 | =2");
    let (end, kv) = parse_kv_pairs(&c, 0).expect("pairs");
    assert_eq!(end, 4);
    assert_eq!(kv.len(), 1);
    assert!(parse_kv_pairs(&chars_of("=1"), 0).is_none());
    assert!(parse_kv_pairs(&chars_of("a="), 0).is_none());
}

#[test]
fn lookups_and_messages() {
    let kv = pairs("n=7 | n=8 | big=300 | neg=-1 | empty=\"\" | r=MAYBE");
    assert_eq!(kv_get(&kv, "n"), Some("8"));
    assert_eq!(kv_get(&kv, "x"), None);
    assert_eq!(kv_require(&kv, "x"), Err("missing required field: x".to_string()));
    assert_eq!(parse_u8_field(&kv, "n"), Ok(8));
    assert_eq!(
        parse_u8_field(&kv, "big"),
        Err("field `big`: number too large to fit in target type".to_string())
    );
    assert_eq!(
        parse_u8_field(&kv, "neg"),
        Err("field `neg`: invalid digit found in string".to_string())
    );
    assert_eq!(
        parse_u8_field(&kv, "empty"),
        Err("field `empty`: cannot parse integer from empty string".to_string())
    );
    assert_eq!(parse_result_field(&kv), Err("missing required field: result".to_string()));
    let kv2 = pairs("result=MAYBE");
    assert_eq!(parse_result_field(&kv2), Err("unknown result value: MAYBE".to_string()));
    let kv3 = pairs("result=PASS");
    assert_eq!(parse_result_field(&kv3), Ok(AttestResult::Pass));
}

#[test]
fn a_quoted_item_without_key_ends_the_list() {
    let kv = pairs("a=1 | \"free text\" | b=2");
    assert_eq!(kv, vec![("a".to_string(), "1".to_string())]);
    let c = chars_of("a=1 | \"free text\" | b=2");
    assert_eq!(parse_kv_pairs(&c, 0).expect("pairs").0, 4);
}

#[test]
fn a_quoted_key_keeps_its_quotes() {
    let kv = pairs("\"k\"=1 | b=2");
    assert_eq!(
        kv,
        vec![("\"k\"".to_string(), "1".to_string()), ("b".to_string(), "2".to_string())]
    );
}
