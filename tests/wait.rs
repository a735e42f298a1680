use blackjack::collector::CollectedData;
use blackjack::json::{Json, JsonNumber};
use blackjack::test_spec::{Expr, WaitSpec};
use blackjack::wait::{check_spec_against_data, max_timeout_of, WaitPoll, Waiter};

fn json(text: &str) -> Json {
    from_value(&serde_json::from_str(text).unwrap())
}

fn from_value(v: &serde_json::Value) -> Json {
    match v {
        serde_json::Value::Null => Json::Null,
        serde_json::Value::Bool(b) => Json::Bool(*b),
        serde_json::Value::Number(n) => {
            if let Some(u) = n.as_u64() {
                Json::Number(JsonNumber::PosInt(u))
            } else if let Some(i) = n.as_i64() {
                Json::Number(JsonNumber::NegInt(i))
            } else {
                Json::Number(JsonNumber::Float(n.to_string()))
            }
        }
        serde_json::Value::String(s) => Json::String(s.clone()),
        serde_json::Value::Array(a) => Json::Array(a.iter().map(from_value).collect()),
        serde_json::Value::Object(o) => {
            Json::Object(o.iter().map(|(k, v)| (k.clone(), from_value(v))).collect())
        }
    }
}

fn size_one(target: &str, timeout: u16) -> WaitSpec {
    WaitSpec { target: target.to_string(), condition: Expr::SizeExpr { size: 1 }, timeout }
}

#[test]
fn size_one_on_empty_bucket_fails_after_budget() {
    let data = CollectedData::new();
    let mut w = Waiter::new(vec![size_one("pods", 3)], 2);
    assert_eq!(w.cycles_left, 60);
    for _ in 0..60 {
        assert!(matches!(w.poll(&data), WaitPoll::Sleep));
    }
    match w.poll(&data) {
        WaitPoll::Failed(fs) => {
            assert_eq!(fs.len(), 1);
            assert_eq!(fs[0].spec.target, "pods");
            assert_eq!(fs[0].assert_diagnostic.expr.render(), "size == 1");
            assert!(matches!(fs[0].assert_diagnostic.input[0], Json::Number(JsonNumber::PosInt(0))));
        }
        other => panic!("unexpected {other:?}"),
    }
}

#[test]
fn mutation_mid_wait_succeeds_within_one_cycle() {
    let mut data = CollectedData::new();
    let mut w = Waiter::new(vec![size_one("pods", 10)], 1);
    for _ in 0..5 {
        assert!(matches!(w.poll(&data), WaitPoll::Sleep));
    }
    data.put(&"pods".to_string(), "u1".to_string(), json(r#"{"a": 1}"#));
    assert!(matches!(w.poll(&data), WaitPoll::Sleep));
    assert!(w.pending.is_empty());
    assert!(matches!(w.poll(&data), WaitPoll::Satisfied));
}

#[test]
fn budget_uses_largest_timeout() {
    let specs = vec![size_one("a", 2), size_one("b", 7), size_one("c", 1)];
    assert_eq!(max_timeout_of(&specs), 7);
    let w = Waiter::new(specs, 3);
    assert_eq!(w.cycles_left, 210);
}

#[test]
fn zero_budget_checks_once() {
    let mut data = CollectedData::new();
    data.put(&"pods".to_string(), "u1".to_string(), json("1"));
    let mut w = Waiter::new(vec![size_one("pods", 0)], 1);
    assert!(matches!(w.poll(&data), WaitPoll::Satisfied));
}

#[test]
fn check_against_absent_bucket_sees_no_values() {
    let data = CollectedData::new();
    let spec = WaitSpec { target: "x".to_string(), condition: Expr::SizeExpr { size: 0 }, timeout: 1 };
    assert!(check_spec_against_data(&spec, &data).is_ok());
}
