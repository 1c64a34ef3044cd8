use sesearch_rust::json::Value;

#[test]
fn renders_object() {
    let v = Value::Object(vec![
        ("a".into(), Value::Num(1)),
        ("b".into(), Value::Array(vec![Value::Str("x".into()), Value::Bool(true)])),
    ]);
    assert_eq!(v.render(), r#"{"a":1,"b":["x",true]}"#);
}

#[test]
fn escapes_strings() {
    assert_eq!(Value::Str("a\"b\\c\n".into()).render(), r#""a\"b\\c\n""#);
}

#[test]
fn renders_negative_numbers_and_control_characters() {
    assert_eq!(Value::Num(-42).render(), "-42");
    assert_eq!(Value::Num(0).render(), "0");
    assert_eq!(Value::Str("\u{1}\t\r".into()).render(), r#""\u0001\t\r""#);
    assert_eq!(Value::Bool(false).render(), "false");
}

#[test]
fn renders_empty_containers() {
    assert_eq!(Value::Array(vec![]).render(), "[]");
    assert_eq!(Value::Object(vec![]).render(), "{}");
}

#[test]
fn sort_key_is_the_rendering() {
    let v = Value::Array(vec![Value::Num(3), Value::Str("é".into())]);
    assert_eq!(v.sort_key(), v.render());
    assert_eq!(v.sort_key(), r#"[3,"é"]"#);
}

#[test]
fn rendered_json_is_one_line() {
    let v = Value::Object(vec![
        ("k\n".into(), Value::Array(vec![Value::Str("\u{0}\u{1f}x\r\n".into()), Value::Num(i64::MIN)])),
        ("t".into(), Value::Bool(true)),
    ]);
    let text = v.render();
    assert!(text.chars().all(|c| c >= ' '));
    assert_eq!(text, r#"{"k\n":["\u0000\u001fx\r\n",-9223372036854775808],"t":true}"#);
}
