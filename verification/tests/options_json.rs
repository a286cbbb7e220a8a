//! Serializing and parsing the textual form of select option lists.

use forma_ui::SelectOption;
use forma_ui::json::options_to_json;
use forma_ui::json::parse_options;

fn pairs(parsed: &[SelectOption]) -> Vec<(String, String)> {
    parsed.iter().map(|o| (o.value.clone(), o.label.clone())).collect()
}

#[test]
fn serialize_empty() {
    assert_eq!(options_to_json(&[]), "[]");
}

#[test]
fn serialize_exact_shape() {
    let opts = vec![
        SelectOption::new("sans", "Sans-serif"),
        SelectOption::new("serif", "Serif"),
        SelectOption::new("mono", "Monospace"),
    ];
    assert_eq!(
        options_to_json(&opts),
        r#"[{"value":"sans","label":"Sans-serif"},{"value":"serif","label":"Serif"},{"value":"mono","label":"Monospace"}]"#
    );
}

#[test]
fn serialize_escapes() {
    let opts = vec![SelectOption::new("a\"b", "c\\d\ne")];
    assert_eq!(
        options_to_json(&opts),
        "[{\"value\":\"a\\\"b\",\"label\":\"c\\\\d\\u000ae\"}]"
    );
}

#[test]
fn parse_simple_list() {
    let parsed = parse_options(
        r#"[{"value":"sans","label":"Sans-serif"},{"value":"serif","label":"Serif"},{"value":"mono","label":"Monospace"}]"#,
    )
    .unwrap();
    assert_eq!(
        pairs(&parsed),
        vec![
            ("sans".to_string(), "Sans-serif".to_string()),
            ("serif".to_string(), "Serif".to_string()),
            ("mono".to_string(), "Monospace".to_string()),
        ]
    );
}

#[test]
fn parse_empty_list() {
    let parsed = parse_options("  [ ]  ").unwrap();
    assert!(parsed.is_empty());
}

#[test]
fn parse_with_whitespace() {
    let parsed = parse_options(
        " [ { \"value\" : \"a\" , \"label\" : \"b\" } ,\n { \"value\" : \"c\" , \"label\" : \"d\" } ] ",
    )
    .unwrap();
    assert_eq!(
        pairs(&parsed),
        vec![
            ("a".to_string(), "b".to_string()),
            ("c".to_string(), "d".to_string()),
        ]
    );
}

#[test]
fn parse_escapes() {
    let parsed = parse_options(
        r#"[{"value":"aA\/","label":"\t\"\\\u00e9"}]"#,
    )
    .unwrap();
    assert_eq!(pairs(&parsed), vec![("aA/".to_string(), "\t\"\\\u{e9}".to_string())]);
}

#[test]
fn parse_malformed_is_reported() {
    assert!(parse_options("{not valid").is_err());
}

#[test]
fn parse_rejects_truncated_input() {
    assert!(parse_options(r#"[{"value":"a","label":"b"}"#).is_err());
    assert!(parse_options(r#"[{"value":"a","label":"b"#).is_err());
    assert!(parse_options("[").is_err());
    assert!(parse_options("").is_err());
}

#[test]
fn parse_rejects_wrong_shape() {
    assert!(parse_options(r#"{"value":"a","label":"b"}"#).is_err());
    assert!(parse_options(r#"[{"label":"b","value":"a"}]"#).is_err());
    assert!(parse_options(r#"[{"value":"a"}]"#).is_err());
    assert!(parse_options(r#"[{"value":"a","label":"b"},]"#).is_err());
    assert!(parse_options(r#"[{"value":"a","label":"b"}] trailing"#).is_err());
    assert!(parse_options(r#"[{"value":1,"label":"b"}]"#).is_err());
}

#[test]
fn parse_rejects_bad_escapes() {
    assert!(parse_options(r#"[{"value":"\q","label":"b"}]"#).is_err());
    assert!(parse_options(r#"[{"value":"\u12","label":"b"}]"#).is_err());
    assert!(parse_options(r#"[{"value":"\ud800","label":"b"}]"#).is_err());
    assert!(parse_options("[{\"value\":\"a\nb\",\"label\":\"b\"}]").is_err());
}

#[test]
fn round_trip_plain() {
    let opts = vec![
        SelectOption::new("sans", "Sans-serif"),
        SelectOption::new("", ""),
        SelectOption::new("x", "y"),
    ];
    let parsed = parse_options(&options_to_json(&opts)).unwrap();
    assert_eq!(pairs(&parsed), pairs(&opts));
}

#[test]
fn round_trip_escapes() {
    let opts = vec![SelectOption::new("a\"b\\c", "line\none\ttab\u{0}zero\u{e9}acute")];
    let parsed = parse_options(&options_to_json(&opts)).unwrap();
    assert_eq!(pairs(&parsed), pairs(&opts));
}
