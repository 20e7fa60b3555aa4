use maya_mcp::json::{parse, Json};

#[test]
fn texts_are_read_into_values() {
    let v = parse(r#" {"b": [1, true, null], "a": "x\ny", "a2": -1.5} "#).unwrap();
    assert_eq!(v.get("a").unwrap().as_str(), Some("x\ny"));
    match v.get("b").unwrap() {
        Json::Array(items) => {
            assert_eq!(items.len(), 3);
            assert!(matches!(&items[0], Json::Number(n) if n.as_u64() == Some(1)));
            assert_eq!(items[1].as_bool(), Some(true));
            assert!(matches!(items[2], Json::Null));
        }
        other => panic!("{other:?}"),
    }
    assert!(v.get("c").is_none());
    assert!(v.get("b").unwrap().get("a").is_none());
}

#[test]
fn broken_texts_are_explained() {
    let message = parse("{").unwrap_err();
    assert_eq!(message, "EOF while parsing an object at line 1 column 1");
    assert!(parse("").is_err());
    assert!(parse("1 2").is_err());
}

#[test]
fn later_members_count() {
    let v = Json::Object(vec![
        ("a".to_string(), Json::Bool(false)),
        ("a".to_string(), Json::Bool(true)),
    ]);
    assert_eq!(v.get("a").unwrap().as_bool(), Some(true));
    assert_eq!(v.to_compact(), r#"{"a":true}"#);
    let v = Json::Object(vec![
        ("a".to_string(), Json::Null),
        ("b".to_string(), Json::Bool(true)),
        ("a".to_string(), Json::Bool(false)),
        ("c".to_string(), Json::Null),
        ("a".to_string(), Json::String("last".to_string())),
    ]);
    assert_eq!(v.get("a").unwrap().as_str(), Some("last"));
    assert_eq!(v.to_compact(), r#"{"a":"last","b":true,"c":null}"#);
    let v = parse(r#"{"a": 1, "a": 2}"#).unwrap();
    assert_eq!(v.to_compact(), r#"{"a":2}"#);
}

#[test]
fn values_are_written_on_one_line() {
    let v = parse("{\"b\": [1, 2.5, \"x\\ny\"],\n \"a\": {}}").unwrap();
    assert_eq!(v.to_compact(), r#"{"a":{},"b":[1,2.5,"x\ny"]}"#);
    assert!(!v.to_compact().contains('\n'));
    assert_eq!(Json::unsigned(18_446_744_073_709_551_615).to_compact(), "18446744073709551615");
    assert_eq!(Json::empty_object().to_compact(), "{}");
}

#[test]
fn values_are_written_indented() {
    let v = parse(r#"{"b":[1,true],"a":null}"#).unwrap();
    let pretty = "{\n  \"a\": null,\n  \"b\": [\n    1,\n    true\n  ]\n}";
    assert_eq!(v.to_pretty().as_deref(), Some(pretty));
}

#[test]
fn copies_are_the_same() {
    let v = parse(r#"{"b":[1,true,{"x":[]}],"a":null,"c":"t","d":1e300}"#).unwrap();
    assert_eq!(v.clone().to_compact(), v.to_compact());
}

#[test]
fn only_strings_bools_and_empty_arrays_are_told() {
    assert_eq!(Json::Null.as_str(), None);
    assert_eq!(Json::Null.as_bool(), None);
    assert_eq!(Json::String("true".to_string()).as_bool(), None);
    assert!(Json::Array(vec![]).is_empty_array());
    assert!(!Json::Array(vec![Json::Null]).is_empty_array());
    assert!(!Json::empty_object().is_empty_array());
}
