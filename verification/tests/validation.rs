use serde_json::Value;
use zwork_sidecar::validation::{
    optional_null_drops, validate, validation_failure, well_formed, JsonDoc, JsonKind, JsonNode, NumberInfo,
};

fn order_key(f: f64) -> u64 {
    let f = if f == 0.0 { 0.0 } else { f };
    let bits = f.to_bits();
    if bits >> 63 == 1 {
        !bits
    } else {
        bits | (1 << 63)
    }
}

fn zeroed(v: &Value) -> Value {
    match v {
        Value::Number(n) if n.as_f64() == Some(0.0) && n.is_f64() => Value::from(0.0),
        Value::Array(a) => Value::Array(a.iter().map(zeroed).collect()),
        Value::Object(m) => Value::Object(m.iter().map(|(k, v)| (k.clone(), zeroed(v))).collect()),
        other => other.clone(),
    }
}

fn push(v: &Value, nodes: &mut Vec<JsonNode>) -> usize {
    let at = nodes.len();
    let kind = match v {
        Value::Null => JsonKind::Null,
        Value::Bool(b) => JsonKind::Bool(*b),
        Value::Number(n) => {
            let f = n.as_f64().unwrap_or(0.0);
            JsonKind::Number(NumberInfo {
                order: order_key(f),
                integral: n.as_i64().is_some() || n.as_u64().is_some() || f.fract() == 0.0,
                as_u64: n.as_u64(),
                float_text: format!("{f}"),
            })
        }
        Value::String(s) => JsonKind::Str(s.clone()),
        Value::Array(_) => JsonKind::Array,
        Value::Object(_) => JsonKind::Object,
    };
    nodes.push(JsonNode { kind, children: vec![], keys: vec![], text: v.to_string(), eq_key: zeroed(v).to_string() });
    let mut children = vec![];
    let mut keys = vec![];
    match v {
        Value::Array(a) => {
            for x in a {
                children.push(push(x, nodes));
            }
        }
        Value::Object(m) => {
            for (k, x) in m {
                keys.push(k.clone());
                children.push(push(x, nodes));
            }
        }
        _ => {}
    }
    nodes[at].children = children;
    nodes[at].keys = keys;
    at
}

fn doc(text: &str) -> JsonDoc {
    let v: Value = serde_json::from_str(text).unwrap();
    let mut nodes = vec![];
    push(&v, &mut nodes);
    let d = JsonDoc { nodes };
    assert!(well_formed(&d));
    d
}

fn check(value: &str, schema: &str) -> Vec<(String, String)> {
    validate(&doc(value), &doc(schema), "")
}

fn pairs(v: &[(&str, &str)]) -> Vec<(String, String)> {
    v.iter().map(|(a, b)| (a.to_string(), b.to_string())).collect()
}

#[test]
fn valid_object_has_no_errors() {
    let schema = r#"{"type":"object","properties":{"path":{"type":"string"},"limit":{"type":"integer"},"mode":{"type":"string","enum":["a","b"]}},"required":["path"]}"#;
    assert!(check(r#"{"path":"x","limit":5,"mode":"a"}"#, schema).is_empty());
}

#[test]
fn missing_required_and_bad_enum() {
    let schema = r#"{"type":"object","properties":{"a":{"type":"string"},"m":{"type":"string","enum":["x", 1]}},"required":["a"]}"#;
    assert_eq!(
        check(r#"{"m":"y"}"#, schema),
        pairs(&[("a", "Expected required property"), ("m", "Expected one of: \"x\", 1")])
    );
}

#[test]
fn type_mismatch_stops_at_the_type() {
    assert_eq!(check("3", r#"{"type":["string","null"],"minLength":2}"#), pairs(&[("root", "Expected string | null")]));
    assert!(check("3.0", r#"{"type":"integer"}"#).is_empty());
    assert_eq!(check("3.5", r#"{"type":"integer"}"#), pairs(&[("root", "Expected integer")]));
}

#[test]
fn nested_items_report_dotted_paths() {
    let schema = r#"{"type":"object","properties":{"items":{"type":"array","items":{"type":"object","properties":{"n":{"type":"number"}},"required":["n"]}}}}"#;
    assert_eq!(check(r#"{"items":[{"n":1},{}]}"#, schema), pairs(&[("items.1.n", "Expected required property")]));
    let tuple = r#"{"type":"array","items":[{"type":"string"},{"type":"number"}],"minItems":3}"#;
    assert_eq!(
        check(r#"[1, 2]"#, tuple),
        pairs(&[("root", "Expected array length to be greater or equal to 3"), ("0", "Expected string")])
    );
}

#[test]
fn unions_and_const() {
    let any = r#"{"anyOf":[{"type":"string"},{"type":"number"}]}"#;
    assert!(check("3", any).is_empty());
    assert_eq!(check("true", any), pairs(&[("root", "Expected value to match one of the allowed schemas")]));
    let one = r#"{"oneOf":[{"type":"number"},{"type":"integer"}]}"#;
    assert_eq!(check("3", one), pairs(&[("root", "Expected value to match exactly one of the allowed schemas")]));
    assert!(check("3.5", one).is_empty());
    assert_eq!(check(r#""b""#, r#"{"const":"a"}"#), pairs(&[("root", "Expected \"a\"")]));
    assert!(check("-0.0", r#"{"const":0.0}"#).is_empty());
    assert_eq!(check("1", r#"{"allOf":[{"minimum":2},{"maximum":0}]}"#), pairs(&[
        ("root", "Expected number to be greater or equal to 2"),
        ("root", "Expected number to be less or equal to 0"),
    ]));
}

#[test]
fn additional_properties_and_string_bounds() {
    let closed = r#"{"type":"object","properties":{"a":{}},"additionalProperties":false}"#;
    assert_eq!(check(r#"{"a":1,"b":2}"#, closed), pairs(&[("b", "Unexpected property")]));
    let typed = r#"{"type":"object","additionalProperties":{"type":"string"}}"#;
    assert_eq!(check(r#"{"x":1}"#, typed), pairs(&[("x", "Expected string")]));
    let s = r#"{"type":"string","minLength":2,"maxLength":3,"pattern":"^a"}"#;
    assert_eq!(
        check(r#""é""#, s),
        pairs(&[("root", "Expected string length greater or equal to 2"), ("root", "Expected string to match '^a'")])
    );
    assert!(check(r#""abc""#, s).is_empty());
    assert!(check(r#""zz""#, r#"{"pattern":"("}"#).is_empty());
    assert_eq!(check("0.5", r#"{"exclusiveMinimum":0.5}"#), pairs(&[("root", "Expected number to be greater than 0.5")]));
    assert_eq!(check("-1", r#"{"exclusiveMaximum":-1}"#), pairs(&[("root", "Expected number to be less than -1")]));
}

#[test]
fn path_prefix_is_used() {
    assert_eq!(
        validate(&doc(r#"{"a":1}"#), &doc(r#"{"properties":{"a":{"type":"string"}}}"#), "args"),
        pairs(&[("args.a", "Expected string")])
    );
}

#[test]
fn failure_message_lists_errors_then_arguments() {
    let errors = pairs(&[("a", "Expected required property"), ("m", "Expected one of: \"x\"")]);
    assert_eq!(
        validation_failure("t", &errors, "{\n  \"m\": \"y\"\n}"),
        "Validation failed for tool \"t\":\n  - a: Expected required property\n  - m: Expected one of: \"x\"\n\nReceived arguments:\n{\n  \"m\": \"y\"\n}"
    );
}

#[test]
fn optional_nulls_are_dropped_where_the_schema_rejects_null() {
    let schema = r#"{"type":"object","properties":{"a":{"type":"string"},"b":{"type":"string"},"c":{"type":["string","null"]}},"required":["a"]}"#;
    // Nodes: 0 root, 1 a, 2 b, 3 c.
    assert_eq!(optional_null_drops(&doc(r#"{"a":null,"b":null,"c":null}"#), &doc(schema)), vec![2]);
    assert!(optional_null_drops(&doc(r#"{"a":"x","b":"y"}"#), &doc(schema)).is_empty());
    let nested = r#"{"type":"array","items":{"type":"object","properties":{"n":{"type":"number"}}}}"#;
    // Nodes: 0 root, 1 first item, 2 its n, 3 second item, 4 its n.
    assert_eq!(optional_null_drops(&doc(r#"[{"n":null},{"n":1}]"#), &doc(nested)), vec![2]);
    let with_ref = r##"{"properties":{"r":{"$ref":"#/x","type":"string"}}}"##;
    assert!(optional_null_drops(&doc(r#"{"r":null}"#), &doc(with_ref)).is_empty());
}
