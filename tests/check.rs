use blackjack::check::assert_expr;
use blackjack::json::{Json, JsonNumber};
use blackjack::test_spec::Expr;

fn json(text: &str) -> Json {
    from_value(&serde_json::from_str(text).unwrap())
}

fn from_value(v: &serde_json::Value) -> Json {
    match v {
        serde_json::Value::Null => Json::Null,
        serde_json::Value::Bool(b) => Json::Bool(*b),
        serde_json::Value::Number(n) => {
            if let Some(u) = n.as_u64() {
                Json::Number(JsonNumber::PosInt(u))
            } else if let Some(i) = n.as_i64() {
                Json::Number(JsonNumber::NegInt(i))
            } else {
                Json::Number(JsonNumber::Float(n.to_string()))
            }
        }
        serde_json::Value::String(s) => Json::String(s.clone()),
        serde_json::Value::Array(a) => Json::Array(a.iter().map(from_value).collect()),
        serde_json::Value::Object(o) => {
            Json::Object(o.iter().map(|(k, v)| (k.clone(), from_value(v))).collect())
        }
    }
}

fn values(texts: &[&str]) -> Vec<Json> {
    texts.iter().map(|t| json(t)).collect()
}

fn ready() -> Json {
    json(r#"{"status": "Ready"}"#)
}

fn not_ready() -> Json {
    json(r#"{"status": "NotReady"}"#)
}

#[test]
fn test_assert_expr_one_matches() {
    let v = vec![ready(), not_ready()];
    assert!(assert_expr(&v, &Expr::OneExpr { one: ready() }).is_ok());
}

#[test]
fn test_assert_expr_all_match() {
    let v = vec![ready(), ready()];
    assert!(assert_expr(&v, &Expr::AllExpr { all: ready() }).is_ok());
}

#[test]
fn test_assert_expr_all_fails() {
    let v = vec![ready(), not_ready()];
    assert!(assert_expr(&v, &Expr::AllExpr { all: ready() }).is_err());
}

#[test]
fn test_assert_expr_size_matches() {
    let v = vec![ready(), ready()];
    assert!(assert_expr(&v, &Expr::SizeExpr { size: 2 }).is_ok());
}

#[test]
fn test_assert_expr_size_fails() {
    let v = vec![ready(), ready()];
    assert!(assert_expr(&v, &Expr::SizeExpr { size: 1 }).is_err());
}

#[test]
fn test_assert_expr_not_size_zero() {
    let v = vec![ready()];
    let e = Expr::NotExpr { not: Box::new(Expr::SizeExpr { size: 0 }) };
    assert!(assert_expr(&v, &e).is_ok());
}

#[test]
fn test_assert_expr_and() {
    let v = vec![ready(), not_ready()];
    let e = Expr::AndExpr {
        and: vec![
            Expr::SizeExpr { size: 2 },
            Expr::OneExpr { one: ready() },
            Expr::OneExpr { one: not_ready() },
        ],
    };
    assert!(assert_expr(&v, &e).is_ok());
}

#[test]
fn test_assert_expr_or_second() {
    let v = vec![ready()];
    let e = Expr::OrExpr { or: vec![Expr::SizeExpr { size: 0 }, Expr::SizeExpr { size: 1 }] };
    assert!(assert_expr(&v, &e).is_ok());
}

#[test]
fn test_assert_expr_or_none() {
    let v = vec![ready(), not_ready()];
    let e = Expr::OrExpr { or: vec![Expr::SizeExpr { size: 3 }, Expr::AllExpr { all: ready() }] };
    assert!(assert_expr(&v, &e).is_err());
}

#[test]
fn all_on_empty_is_true_one_on_empty_is_false() {
    let v: Vec<Json> = Vec::new();
    assert!(assert_expr(&v, &Expr::AllExpr { all: ready() }).is_ok());
    assert!(assert_expr(&v, &Expr::OneExpr { one: ready() }).is_err());
}

#[test]
fn size_failure_reports_observed_size() {
    let v = vec![ready(), ready(), ready()];
    let d = assert_expr(&v, &Expr::SizeExpr { size: 1 }).unwrap_err();
    assert_eq!(d.input.len(), 1);
    assert!(matches!(d.input[0], Json::Number(JsonNumber::PosInt(3))));
    assert_eq!(d.expr.render(), "size == 1");
}

#[test]
fn and_failure_reports_first_failing_part() {
    let v = vec![ready()];
    let e = Expr::AndExpr {
        and: vec![Expr::SizeExpr { size: 1 }, Expr::OneExpr { one: not_ready() }, Expr::SizeExpr { size: 5 }],
    };
    let d = assert_expr(&v, &e).unwrap_err();
    assert_eq!(d.expr.render(), r#"ANY({"status":"NotReady"})"#);
    assert_eq!(d.input.len(), 1);
}

#[test]
fn or_failure_reports_whole_expression() {
    let v = vec![ready()];
    let e = Expr::OrExpr { or: vec![Expr::SizeExpr { size: 0 }, Expr::SizeExpr { size: 2 }] };
    let d = assert_expr(&v, &e).unwrap_err();
    assert_eq!(d.expr.render(), "OR(size == 0, size == 2)");
    assert_eq!(d.input.len(), 1);
}

#[test]
fn render_expressions() {
    let e = Expr::AndExpr {
        and: vec![
            Expr::NotExpr { not: Box::new(Expr::SizeExpr { size: 120 }) },
            Expr::AllExpr { all: json(r#"{"a": [1, "x"]}"#) },
        ],
    };
    assert_eq!(e.render(), r#"AND(NOT(size == 120), ALL({"a":[1,"x"]}))"#);
}

#[test]
fn render_pod_running_diagnostic() {
    let e = Expr::OneExpr { one: json(r#"{"status": {"phase": "Running"}}"#) };
    let v = values(&[r#"{"status": {"phase": "Pending"}}"#]);
    let d = assert_expr(&v, &e).unwrap_err();
    assert_eq!(d.expr.render(), r#"ANY({"status":{"phase":"Running"}})"#);
    assert_eq!(
        d.render(),
        "Assertion Failed\nFailed Expression: ANY({\"status\":{\"phase\":\"Running\"}})\nInput Data:\n  1. {\"status\":{\"phase\":\"Pending\"}}\n"
    );
}

#[test]
fn compact_json_renders_text() {
    let e = Expr::AllExpr { all: json(r#"{"b": [true, null, -2, 2.5], "a": "q\"uote"}"#) };
    assert_eq!(e.render(), r#"ALL({"a":"q\"uote","b":[true,null,-2,2.5]})"#);
}
