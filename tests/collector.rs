use blackjack::collector::{finalizer_patch, selector, watch_reaction, Bucket, CollectedData, WatchEvent, WatchReaction};
use blackjack::json::{Json, JsonNumber};
use blackjack::test_spec::{BucketOperation, BucketSpec};

fn json(text: &str) -> Json {
    from_value(&serde_json::from_str(text).unwrap())
}

fn from_value(v: &serde_json::Value) -> Json {
    match v {
        serde_json::Value::Null => Json::Null,
        serde_json::Value::Bool(b) => Json::Bool(*b),
        serde_json::Value::Number(n) => {
            if let Some(u) = n.as_u64() {
                Json::Number(JsonNumber::PosInt(u))
            } else if let Some(i) = n.as_i64() {
                Json::Number(JsonNumber::NegInt(i))
            } else {
                Json::Number(JsonNumber::Float(n.to_string()))
            }
        }
        serde_json::Value::String(s) => Json::String(s.clone()),
        serde_json::Value::Array(a) => Json::Array(a.iter().map(from_value).collect()),
        serde_json::Value::Object(o) => {
            Json::Object(o.iter().map(|(k, v)| (k.clone(), from_value(v))).collect())
        }
    }
}

fn to_value(j: &Json) -> serde_json::Value {
    match j {
        Json::Null => serde_json::Value::Null,
        Json::Bool(b) => serde_json::Value::Bool(*b),
        Json::Number(JsonNumber::PosInt(u)) => serde_json::Value::from(*u),
        Json::Number(JsonNumber::NegInt(i)) => serde_json::Value::from(*i),
        Json::Number(JsonNumber::Float(t)) => serde_json::Value::Number(t.parse().unwrap()),
        Json::String(s) => serde_json::Value::String(s.clone()),
        Json::Array(a) => serde_json::Value::Array(a.iter().map(to_value).collect()),
        Json::Object(o) => serde_json::Value::Object(o.iter().map(|(k, v)| (k.clone(), to_value(v))).collect()),
    }
}

fn compact_json(j: &Json) -> String {
    to_value(j).to_string()
}

fn pod(phase: &str) -> Json {
    json(&format!(r#"{{"metadata": {{"uid": "u1"}}, "status": {{"phase": "{phase}"}}}}"#))
}

fn text_of(values: &[Json]) -> Vec<String> {
    values.iter().map(compact_json).collect()
}

fn masked(ops: Vec<BucketOperation>) -> CollectedData {
    let mut data = CollectedData::new();
    data.set_mask(&"pods".to_string(), &ops);
    data
}

#[test]
fn created_object_is_recorded() {
    let mut data = CollectedData::new();
    let clear = data.observe(&"pods".to_string(), "u1".to_string(), pod("Pending"), false, true);
    assert!(!clear);
    assert!(data.contains(&"u1".to_string()));
    assert_eq!(text_of(&data.snapshot(&"pods".to_string())), vec![compact_json(&pod("Pending"))]);
}

#[test]
fn create_only_mask_ignores_modifications() {
    let mut data = masked(vec![BucketOperation::Create]);
    data.observe(&"pods".to_string(), "u1".to_string(), pod("Pending"), false, true);
    data.observe(&"pods".to_string(), "u1".to_string(), pod("Running"), false, true);
    assert_eq!(text_of(&data.snapshot(&"pods".to_string())), vec![compact_json(&pod("Pending"))]);
}

#[test]
fn create_patch_mask_applies_modifications() {
    let mut data = masked(vec![BucketOperation::Create, BucketOperation::Patch]);
    data.observe(&"pods".to_string(), "u1".to_string(), pod("Pending"), false, true);
    data.observe(&"pods".to_string(), "u1".to_string(), pod("Running"), false, true);
    assert_eq!(text_of(&data.snapshot(&"pods".to_string())), vec![compact_json(&pod("Running"))]);
}

#[test]
fn mask_without_create_records_nothing() {
    let mut data = masked(vec![BucketOperation::Patch, BucketOperation::Delete]);
    data.observe(&"pods".to_string(), "u1".to_string(), pod("Pending"), false, true);
    assert!(data.snapshot(&"pods".to_string()).is_empty());
    assert!(!data.contains(&"u1".to_string()));
}

#[test]
fn deletion_without_delete_in_mask_keeps_object_and_finalizer() {
    let mut data = masked(vec![BucketOperation::Create, BucketOperation::Patch]);
    data.observe(&"pods".to_string(), "u1".to_string(), pod("Running"), false, true);
    let clear = data.observe(&"pods".to_string(), "u1".to_string(), pod("Running"), true, true);
    assert!(!clear);
    assert_eq!(data.snapshot(&"pods".to_string()).len(), 1);
}

#[test]
fn deletion_with_delete_in_mask_removes_object_and_clears_finalizer() {
    let mut data = CollectedData::new();
    data.observe(&"pods".to_string(), "u1".to_string(), pod("Running"), false, true);
    let clear = data.observe(&"pods".to_string(), "u1".to_string(), pod("Running"), true, true);
    assert!(clear);
    assert!(data.snapshot(&"pods".to_string()).is_empty());
    assert!(!data.contains(&"u1".to_string()));
}

#[test]
fn deletion_of_unknown_object_without_finalizer_clears_nothing() {
    let mut data = CollectedData::new();
    assert!(!data.observe(&"pods".to_string(), "u9".to_string(), pod("Running"), true, false));
    assert!(data.observe(&"pods".to_string(), "u9".to_string(), pod("Running"), true, true));
}

#[test]
fn drop_uid_reports_whether_still_held() {
    let mut data = CollectedData::new();
    data.put(&"a".to_string(), "u1".to_string(), pod("Running"));
    data.set_mask(&"a".to_string(), &vec![BucketOperation::Create]);
    assert!(data.drop_uid(&"u1".to_string()));
    data.set_mask(&"a".to_string(), &vec![BucketOperation::Delete]);
    assert!(!data.drop_uid(&"u1".to_string()));
}

#[test]
fn finalizer_needed_only_for_new_live_objects() {
    let mut data = CollectedData::new();
    assert!(data.needs_finalizer(&"u1".to_string(), false, false));
    assert!(!data.needs_finalizer(&"u1".to_string(), false, true));
    assert!(!data.needs_finalizer(&"u1".to_string(), true, false));
    data.observe(&"pods".to_string(), "u1".to_string(), pod("Pending"), false, false);
    assert!(!data.needs_finalizer(&"u1".to_string(), false, false));
}

#[test]
fn absent_bucket_snapshot_is_empty() {
    let data = CollectedData::new();
    assert!(data.snapshot(&"nothing".to_string()).is_empty());
}

#[test]
fn bucket_specs_set_masks_in_order() {
    let mut data = CollectedData::new();
    let specs = vec![
        BucketSpec { name: "pods".to_string(), operations: vec![BucketOperation::Patch] },
        BucketSpec { name: "pods".to_string(), operations: vec![BucketOperation::Create] },
    ];
    data.apply_bucket_specs(&specs);
    assert_eq!(data.buckets.len(), 1);
    assert_eq!(data.buckets[0].1.allowed_operations, vec![BucketOperation::Create]);
}

#[test]
fn default_bucket_reflects_everything() {
    let b = Bucket::default();
    assert_eq!(b.allowed_operations.len(), 3);
    assert!(b.data.is_empty());
}

#[test]
fn all_uids_with_objects() {
    let mut data = CollectedData::new();
    data.put(&"a".to_string(), "u1".to_string(), pod("A"));
    data.put(&"b".to_string(), "u2".to_string(), pod("B"));
    let all = data.all_uids_with_obj();
    let uids: Vec<&str> = all.iter().map(|(u, _)| u.as_str()).collect();
    assert_eq!(uids, vec!["u1", "u2"]);
    assert!(matches!(all[1].1, Json::Object(_)));
    let _ = JsonNumber::PosInt(0);
}

#[test]
fn finalizer_patches() {
    assert_eq!(compact_json(&finalizer_patch(true)), r#"{"metadata":{"finalizers":["blackjack.io/finalizer"]}}"#);
    assert_eq!(compact_json(&finalizer_patch(false)), r#"{"metadata":{"finalizers":null}}"#);
}

#[test]
fn selectors() {
    assert_eq!(selector(&None), "");
    assert_eq!(selector(&Some(vec![("app".to_string(), "web".to_string())])), "app=web");
    assert_eq!(
        selector(&Some(vec![("a".to_string(), "1".to_string()), ("b".to_string(), "2".to_string())])),
        "a=1,b=2"
    );
}

#[test]
fn watch_reactions() {
    assert_eq!(watch_reaction(WatchEvent::Applied(true)), WatchReaction::Handle);
    assert_eq!(watch_reaction(WatchEvent::Applied(false)), WatchReaction::BackOff);
    assert_eq!(watch_reaction(WatchEvent::Other), WatchReaction::Ignore);
    assert_eq!(watch_reaction(WatchEvent::StreamError), WatchReaction::BackOff);
}
