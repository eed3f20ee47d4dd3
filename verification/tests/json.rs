use llamadeck::json::Json;
use serde_json::{Number, Value};

#[test]
fn a_document_is_read_with_all_its_parts() {
    let tree = Json::parse("{\"b\": [1, true, null, \"ю\"], \"a\": {}}").unwrap();
    let items = tree.get("b").unwrap().as_array().unwrap();
    assert_eq!(items.len(), 4);
    assert_eq!(items[0], Json::Number(Number::from(1u64)));
    assert_eq!(items[1], Json::Bool(true));
    assert_eq!(items[2], Json::Null);
    assert_eq!(items[3].as_str(), Some("ю"));
    assert_eq!(tree.get("a"), Some(&Json::Object(Vec::new())));
    assert_eq!(tree.get("c"), None);
}

#[test]
fn of_two_fields_with_one_key_the_later_counts() {
    let tree = Json::parse("{\"a\": 1, \"a\": \"two\"}").unwrap();
    assert_eq!(tree.get_str("a"), Some("two"));
    let built = Json::object(vec![("a", Json::Null), ("a", Json::text("two"))]);
    assert_eq!(built.get_str("a"), Some("two"));
}

#[test]
fn parts_of_the_wrong_kind_are_absent() {
    let list = Json::parse("[1]").unwrap();
    assert_eq!(list.get("0"), None);
    assert_eq!(list.at(1), None);
    assert_eq!(list.as_str(), None);
    let text = Json::text("x");
    assert_eq!(text.at(0), None);
    assert!(text.as_array().is_none());
    assert_eq!(text.get_str("x"), None);
    let object = Json::parse("{\"n\": 7}").unwrap();
    assert_eq!(object.at(0), None);
    assert_eq!(object.get_str("n"), None);
}

#[test]
fn a_complaint_is_that_of_the_parser() {
    let complaint = Json::parse("{\"a\":").unwrap_err();
    let expected = serde_json::from_str::<Value>("{\"a\":").unwrap_err().to_string();
    assert_eq!(complaint, expected);
    assert!(Json::parse("").is_err());
    assert!(Json::parse("1 2").is_err());
}

#[test]
fn values_become_trees() {
    let value = Value::Array(vec![Value::String("a".to_string()), Value::Bool(false), Value::Null]);
    assert_eq!(
        Json::from_value(value),
        Json::Array(vec![Json::text("a"), Json::Bool(false), Json::Null])
    );
    let number = Number::from(-3i64);
    assert_eq!(Json::from_value(Value::Number(number.clone())), Json::Number(number));
}

#[test]
fn deep_nesting_is_refused_by_the_parser() {
    let deep = "[".repeat(200) + &"]".repeat(200);
    assert!(Json::parse(&deep).is_err());
    let shallow = "[".repeat(100) + &"]".repeat(100);
    assert!(Json::parse(&shallow).is_ok());
}
