use blackjack::env::Env;
use blackjack::json::{Json, JsonNumber};
use blackjack::match_object::contains;

fn json(text: &str) -> Json {
    from_value(&serde_json::from_str(text).unwrap())
}

fn from_value(v: &serde_json::Value) -> Json {
    match v {
        serde_json::Value::Null => Json::Null,
        serde_json::Value::Bool(b) => Json::Bool(*b),
        serde_json::Value::Number(n) => {
            if let Some(u) = n.as_u64() {
                Json::Number(JsonNumber::PosInt(u))
            } else if let Some(i) = n.as_i64() {
                Json::Number(JsonNumber::NegInt(i))
            } else {
                Json::Number(JsonNumber::Float(n.to_string()))
            }
        }
        serde_json::Value::String(s) => Json::String(s.clone()),
        serde_json::Value::Array(a) => Json::Array(a.iter().map(from_value).collect()),
        serde_json::Value::Object(o) => {
            Json::Object(o.iter().map(|(k, v)| (k.clone(), from_value(v))).collect())
        }
    }
}

fn check(input: &str, pattern: &str, expected: bool) {
    assert_eq!(contains(&json(input), &json(pattern), &Env::new()), expected);
}

fn env12() -> Env {
    let mut env = Env::new();
    env.insert("ENV1".to_string(), "999".to_string());
    env.insert("ENV2".to_string(), "666".to_string());
    env
}

fn check_env(input: &str, pattern: &str, expected: bool) {
    assert_eq!(contains(&json(input), &json(pattern), &env12()), expected);
}

const POD_READY: &str = r#"{"spec": "some_spec", "status": {"conditions": [
    {"lastProbeTime": null, "lastTransitionTime": "2024-11-02T15:49:19Z", "status": "True", "type": "Ready"},
    {"lastProbeTime": null, "lastTransitionTime": "2024-11-02T15:49:19Z", "status": "True", "type": "ContainersReady"},
    {"lastProbeTime": null, "lastTransitionTime": "2024-11-02T15:49:14Z", "status": "True", "type": "PodScheduled"}],
  "containerStatuses": [{"containerID": "docker://1b9a81f558cc5980a152a554ba6b03866062e91958c0af72c8290b62633dd2f7",
    "image": "eclipse-mosquitto:2", "state": {"running": {"startedAt": "2024-11-02T15:49:19Z"}},
    "volumeMounts": [{"mountPath": "/mosquitto/config", "name": "configuration"},
      {"mountPath": "/var/run/secrets/kubernetes.io/serviceaccount", "name": "kube-api-access-dtsbh",
       "readOnly": true, "recursiveReadOnly": "Disabled"}]}]}}"#;

const READY_PATTERN: &str = r#"{"status": {"conditions": [{"type": "Ready", "status": "True"}]}}"#;

#[test]
fn test_contains_subset_object() {
    check(r#"{"a": 1, "b": 2}"#, r#"{"a": 1}"#, true);
}

#[test]
fn test_contains_nested_object() {
    check(r#"{"a": 1, "b": {"c": 3, "d": 4}}"#, r#"{"b": {"c": 3}}"#, true);
}

#[test]
fn test_contains_array_element() {
    check(r#"{"a": [1, 2, 3], "b": 4}"#, r#"{"a": [2]}"#, true);
}

#[test]
fn test_contains_array_element_missing() {
    check(r#"{"a": [1, 2, 3], "b": 4}"#, r#"{"a": [4]}"#, false);
}

#[test]
fn test_contains_top_level_array() {
    check(r#"["apple", "banana", "cherry"]"#, r#"["banana"]"#, true);
}

#[test]
fn test_contains_top_level_array_missing() {
    check(r#"["apple", "banana", "cherry"]"#, r#"["banana", "date"]"#, false);
}

#[test]
fn test_contains_null_null() {
    check("null", "null", true);
}

#[test]
fn test_contains_null_number() {
    check("null", "1", false);
}

#[test]
fn test_contains_equal_numbers() {
    check("1", "1", true);
}

#[test]
fn test_contains_different_numbers() {
    check("1", "2", false);
}

#[test]
fn test_contains_deep_equal() {
    check(r#"{"a": {"b": {"c": 1}}}"#, r#"{"a": {"b": {"c": 1}}}"#, true);
}

#[test]
fn test_contains_deep_subset() {
    check(r#"{"a": {"b": {"c": 1, "d": 2}}}"#, r#"{"a": {"b": {"c": 1}}}"#, true);
}

#[test]
fn test_contains_deep_different() {
    check(r#"{"a": {"b": {"c": 1}}}"#, r#"{"a": {"b": {"c": 2}}}"#, false);
}

#[test]
fn test_contains_array_of_objects() {
    check(r#"{"a": [{"b": 1}, {"b": 2}, {"b": 3}]}"#, r#"{"a": [{"b": 2}]}"#, true);
}

#[test]
fn test_contains_array_of_objects_missing() {
    check(r#"{"a": [{"b": 1}, {"b": 2}, {"b": 3}]}"#, r#"{"a": [{"b": 4}]}"#, false);
}

#[test]
fn test_contains_nested_array() {
    check(r#"{"a": {"b": [1, 2, 3]}}"#, r#"{"a": {"b": [2, 3]}}"#, true);
}

#[test]
fn test_contains_nested_array_missing() {
    check(r#"{"a": {"b": [1, 2, 3]}}"#, r#"{"a": {"b": [4]}}"#, false);
}

#[test]
fn test_contains_nested_value_differs() {
    check(r#"{"a": {"b": 1}}"#, r#"{"a": {"b": 2}}"#, false);
}

#[test]
fn test_contains_bool_differs() {
    check(r#"{"a": [{"c": "foo", "b": false}]}"#, r#"{"a": [{"c": "foo", "b": true}]}"#, false);
}

#[test]
fn test_contains_bool_equal() {
    check(r#"{"a": [{"c": "foo", "b": true}]}"#, r#"{"a": [{"c": "foo", "b": true}]}"#, true);
}

#[test]
fn test_contains_pod_ready() {
    check(POD_READY, READY_PATTERN, true);
}

#[test]
fn test_contains_pod_not_ready() {
    let not_ready = POD_READY.replacen(r#""status": "True", "type": "Ready""#, r#""status": "False", "type": "Ready""#, 1);
    check(&not_ready, READY_PATTERN, false);
}

#[test]
fn test_contains_with_env_plain() {
    check_env(r#"{"a": "123", "b": "234"}"#, r#"{"a": "123"}"#, true);
}

#[test]
fn test_contains_with_env_unknown_var() {
    check_env(r#"{"a": "12${ENV3}3", "b": "234"}"#, r#"{"a": "12${ENV3}3"}"#, true);
}

#[test]
fn test_contains_with_env_env1() {
    check_env(r#"{"a": "129993", "b": "234"}"#, r#"{"a": "12${ENV1}3"}"#, true);
}

#[test]
fn test_contains_with_env_env2() {
    check_env(r#"{"a": "126663", "b": "234"}"#, r#"{"a": "12${ENV2}3"}"#, true);
}

#[test]
fn test_contains_with_env_no_braces_1() {
    check_env(r#"{"a": "129993", "b": "234"}"#, r#"{"a": "12$ENV13"}"#, false);
}

#[test]
fn test_contains_with_env_no_braces_2() {
    check_env(r#"{"a": "126663", "b": "234"}"#, r#"{"a": "12$ENV23"}"#, false);
}

#[test]
fn test_contains_with_env_array_plain() {
    check_env(r#"{"a": ["234", "123"], "b": "234"}"#, r#"{"a": ["123"]}"#, true);
}

#[test]
fn test_contains_with_env_array_env1() {
    check_env(r#"{"a": ["234", "129993"], "b": "234"}"#, r#"{"a": ["12${ENV1}3"]}"#, true);
}

#[test]
fn test_contains_with_env_array_env2() {
    check_env(r#"{"a": ["234", "126663"], "b": "234"}"#, r#"{"a": ["12${ENV2}3"]}"#, true);
}

#[test]
fn test_contains_with_env_array_unknown_var() {
    check_env(r#"{"a": ["234", "12${ENV3}3"], "b": "234"}"#, r#"{"a": ["12${ENV3}3"]}"#, true);
}

#[test]
fn test_contains_with_env_array_no_braces_1() {
    check_env(r#"{"a": ["234", "129993"], "b": "234"}"#, r#"{"a": ["12$ENV13"]}"#, false);
}

#[test]
fn test_contains_with_env_array_no_braces_2() {
    check_env(r#"{"a": ["234", "126663"], "b": "234"}"#, r#"{"a": ["12$ENV23"]}"#, false);
}

#[test]
fn reflexive_on_sample_values() {
    for text in [POD_READY, "null", "[1, [2, {\"x\": \"${Y}\"}], -3, 1.5]", r#"{"a": {}, "b": []}"#] {
        let v = json(text);
        assert!(contains(&v, &v.deep_copy(), &Env::new()));
    }
}

#[test]
fn subset_and_missing_element() {
    check(r#"{"a": 1, "b": 2}"#, r#"{"a": 1}"#, true);
    check(r#"{"a": [1, 2, 3]}"#, r#"{"a": [4]}"#, false);
}

#[test]
fn env_substitution_only_braced_form() {
    let mut env = Env::new();
    env.insert("X".to_string(), "999".to_string());
    assert!(contains(&json(r#""129993""#), &json(r#""12${X}3""#), &env));
    assert!(!contains(&json(r#""129993""#), &json(r#""12$X3""#), &env));
}

#[test]
fn empty_pattern_array_matches() {
    check("[1, 2]", "[]", true);
    check("[]", "[]", true);
}

#[test]
fn mixed_types_do_not_match() {
    check(r#"{"a": 1}"#, "[1]", false);
    check("\"1\"", "1", false);
    check("1", "1.0", false);
    check("0.0", "-0.0", true);
}
