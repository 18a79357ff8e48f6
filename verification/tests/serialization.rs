use json::hashmap_to_string;
use json::JArray;
use json::JNumber;
use json::JObject;
use json::JString;
use json::Json;
use json::JsonValue;
use json::Number;

/// Tests the `to_string()` method of each value variant.
#[test]
fn to_string() {
    let null_value = JsonValue::JNull;
    assert_eq!(null_value.to_string(), "Null".to_string());
    let true_value = JsonValue::JTrue;
    assert_eq!(true_value.to_string(), "True".to_string());
    let false_value = JsonValue::JFalse;
    assert_eq!(false_value.to_string(), "False".to_string());
    let string_value = JString { value: String::from("abc") };
    assert_eq!(string_value.to_string(), "\"abc\"".to_string());
    let int_value = JNumber { value: Number::Integer(-32i64) };
    assert_eq!(int_value.to_string(), "-32".to_string());
    let float_value = JNumber { value: Number::Float(2.3f64.to_string()) };
    assert_eq!(float_value.to_string(), "2.3".to_string());
    let array_value = JArray { value: vec![JsonValue::JTrue, JsonValue::JFalse] };
    assert_eq!(array_value.to_string(), "[True, False]".to_string());
    let object_value = JObject::new();
    assert_eq!(object_value.to_string(), "{}".to_string());
}

#[test]
fn hashmap() {
    let mut h = JObject::new();
    h.insert(JString { value: "bool_entry".to_string() }, JsonValue::JFalse);
    let expected = "{\n\t\"bool_entry\" : False\n}".to_string();
    assert_eq!(hashmap_to_string(&h), expected);
}

#[test]
fn js() {
    let json = Json::new();
    assert_eq!(json.to_string(), "{}".to_string());
}

#[test]
fn array_test() {
    let mut a = JArray { value: Vec::new() };
    a.value.push(JsonValue::JTrue);
    a.value.push(JsonValue::JFalse);
    assert_eq!(a.value.len(), 2);
    assert_eq!(a.value[0].to_string(), "True");
    assert_eq!(a.value[1].to_string(), "False");
}

#[test]
fn replace_element_test() {
    let mut json = Json::new();
    assert_eq!(json.to_string(), "{}".to_string());
    json.replace_element(JsonValue::JTrue);
    assert_eq!(json.to_string(), "True".to_string());
}

#[test]
fn empty_array_renders_brackets() {
    let a = JArray { value: Vec::new() };
    assert_eq!(a.to_string(), "[]");
    assert_eq!(json::array_to_string(&Vec::new()), "[]");
}

#[test]
fn array_of_mixed_values() {
    let a = JArray {
        value: vec![
            JsonValue::JNumber(JNumber { value: Number::Integer(1) }),
            JsonValue::JString(JString { value: String::from("x") }),
            JsonValue::JNull,
        ],
    };
    assert_eq!(a.to_string(), "[1, \"x\", Null]");
}

#[test]
fn embedded_quote_is_not_escaped() {
    let s = JString { value: String::from("a\"b") };
    assert_eq!(s.to_string(), "\"a\"b\"");
}

#[test]
fn nested_object_keeps_flat_indent() {
    let mut inner = JObject::new();
    inner.insert(JString { value: String::from("b") }, JsonValue::JTrue);
    let mut outer = JObject::new();
    outer.insert(JString { value: String::from("a") }, JsonValue::JObject(inner));
    assert_eq!(outer.to_string(), "{\n\t\"a\" : {\n\t\"b\" : True\n}\n}");
}

#[test]
fn object_with_two_entries_keeps_insertion_order() {
    let mut o = JObject::new();
    o.insert(JString { value: String::from("a") }, JsonValue::JTrue);
    o.insert(JString { value: String::from("b") }, JsonValue::JNull);
    assert_eq!(o.to_string(), "{\n\t\"a\" : True,\n\t\"b\" : Null\n}");
}

#[test]
fn repeated_serialization_is_identical() {
    let mut o = JObject::new();
    o.insert(
        JString { value: String::from("list") },
        JsonValue::JArray(JArray { value: vec![JsonValue::JTrue, JsonValue::JNull] }),
    );
    let tree = JsonValue::JObject(o);
    let first = tree.to_string();
    let second = tree.to_string();
    assert_eq!(first, second);
    assert_eq!(first, "{\n\t\"list\" : [True, Null]\n}");
}

#[test]
fn insert_overwrites_existing_key() {
    let mut o = JObject::new();
    o.insert(JString { value: String::from("k") }, JsonValue::JTrue);
    assert_eq!(o.len(), 1);
    o.insert(JString { value: String::from("k") }, JsonValue::JFalse);
    assert_eq!(o.len(), 1);
    assert_eq!(o.to_string(), "{\n\t\"k\" : False\n}");
    o.insert(JString { value: String::from("other") }, JsonValue::JNull);
    assert_eq!(o.len(), 2);
    assert_eq!(o.to_string(), "{\n\t\"k\" : False,\n\t\"other\" : Null\n}");
}

#[test]
fn replace_element_with_nested_tree() {
    let mut json = Json::new();
    let arr = JArray {
        value: vec![
            JsonValue::JNumber(JNumber { value: Number::Integer(-7) }),
            JsonValue::JFalse,
        ],
    };
    json.replace_element(JsonValue::JArray(arr));
    assert_eq!(json.to_string(), "[-7, False]");
}
