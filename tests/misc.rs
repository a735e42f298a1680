use blackjack::config::TestTypeConfig;
use blackjack::env::{subst_or_not, Env};
use blackjack::error::Error;
use blackjack::manifest::{
    is_yaml_extension, join_manifests, namespace_override, placement, skip_document, split_api_version,
    test_name, Scope,
};
use blackjack::namespace::{NamespaceAction, NamespaceDeletion, NamespaceEvent};
use blackjack::run_test::{aggregate_errors, make_namespace, namespace_name, test_env, StepAction, StepRunner};
use blackjack::script::{apply_exports, shell_command};
use blackjack::test_spec::{
    default_namespace, default_override_namespace, ApplySpec, BucketOperation, BucketSpec, EnvSubst, Expr,
    StepSpec, WaitSpec, WatchSpec,
};
use blackjack::json::Json;

fn env_with(pairs: &[(&str, &str)]) -> Env {
    let mut env = Env::new();
    for (k, v) in pairs {
        env.insert(k.to_string(), v.to_string());
    }
    env
}

#[test]
fn env_insert_and_get() {
    let mut env = env_with(&[("A", "1")]);
    env.insert("A".to_string(), "2".to_string());
    assert_eq!(env.get(&"A".to_string()), Some("2".to_string()));
    assert_eq!(env.get(&"B".to_string()), None);
    assert!(!env.is_empty());
    assert!(Env::new().is_empty());
}

#[test]
fn substitution_replaces_known_variables() {
    let env = env_with(&[("BLACKJACK_NAMESPACE", "ns-1")]);
    assert_eq!(subst_or_not("${BLACKJACK_NAMESPACE}".to_string(), &env), "ns-1");
    assert_eq!(subst_or_not("a-${OTHER}".to_string(), &env), "a-${OTHER}");
    assert_eq!(subst_or_not("${K}".to_string(), &env_with(&[("K", "bad$")])), "${K}");
}

#[test]
fn exports_are_parsed() {
    let mut env = env_with(&[("BLACKJACK_NAMESPACE", "ns")]);
    let text = "export HOME='/root'\nexport BLACKJACK_VALUE='xyz'\r\nexport BLACKJACK_EMPTY=''\nexport BLACKJACK_NOVALUE\nexport BLACKJACK_PLAIN=a=b\ndeclare -x BLACKJACK_OTHER='q'";
    apply_exports(text, &mut env);
    assert_eq!(env.get(&"BLACKJACK_VALUE".to_string()), Some("xyz".to_string()));
    assert_eq!(env.get(&"BLACKJACK_EMPTY".to_string()), Some("".to_string()));
    assert_eq!(env.get(&"BLACKJACK_PLAIN".to_string()), Some("a=b".to_string()));
    assert_eq!(env.get(&"BLACKJACK_NOVALUE".to_string()), None);
    assert_eq!(env.get(&"HOME".to_string()), None);
    assert_eq!(env.get(&"BLACKJACK_OTHER".to_string()), None);
    assert_eq!(env.get(&"BLACKJACK_NAMESPACE".to_string()), Some("ns".to_string()));
}

#[test]
fn namespace_names() {
    assert_eq!(namespace_name("my-test", "alphabet", "sunshine"), "my-test-alphabet-sunshine");
    let long = "a".repeat(40);
    assert_eq!(namespace_name(&long, "x", "y"), format!("{}-x-y", "a".repeat(32)));
    let ns = make_namespace(&"t".to_string());
    assert!(ns.starts_with("t-"));
    let n = ns.chars().count();
    assert!(n == 3 || n == 11 || n == 19);
}

#[test]
fn api_versions() {
    assert_eq!(split_api_version("apps/v1"), ("apps".to_string(), "v1".to_string()));
    assert_eq!(split_api_version("v1"), ("".to_string(), "v1".to_string()));
    assert_eq!(split_api_version("a/b/c"), ("a".to_string(), "b/c".to_string()));
}

#[test]
fn manifest_documents_placement() {
    let over = Some("test-ns".to_string());
    assert!(skip_document(&"Namespace".to_string(), &over));
    assert!(!skip_document(&"Namespace".to_string(), &None));
    assert!(!skip_document(&"Pod".to_string(), &over));
    let p = placement(Scope::Namespaced, &Some("other".to_string()), &over);
    assert_eq!(p.set_namespace, Some("test-ns".to_string()));
    assert_eq!(p.api_namespace, Some("test-ns".to_string()));
    let p = placement(Scope::Namespaced, &None, &None);
    assert_eq!(p.set_namespace, None);
    assert_eq!(p.api_namespace, Some("default".to_string()));
    let p = placement(Scope::Cluster, &None, &over);
    assert_eq!(p.api_namespace, None);
    let spec = ApplySpec { path: "m.yaml".to_string(), override_namespace: false, namespace: "n".to_string() };
    assert_eq!(namespace_override(&spec), None);
}

#[test]
fn manifests_joined() {
    assert_eq!(join_manifests(&vec![]), "");
    assert_eq!(join_manifests(&vec!["a: 1".to_string(), "b: 2".to_string()]), "a: 1\n---\nb: 2\n");
    assert!(is_yaml_extension("YaML"));
    assert!(!is_yaml_extension("yml"));
}

#[test]
fn test_names() {
    assert_eq!(test_name("".to_string(), "suite", "case"), "suite-case");
    assert_eq!(test_name("given".to_string(), "suite", "case"), "given");
}

#[test]
fn defaults() {
    assert!(default_override_namespace());
    assert_eq!(default_namespace(), "${BLACKJACK_NAMESPACE}");
    let c = TestTypeConfig::user_default().with_parallel(Some(8)).with_attempts(None);
    assert_eq!((c.parallel, c.attempts), (8, 2));
    assert_eq!(TestTypeConfig::cluster_default(), TestTypeConfig { parallel: 1, attempts: 1 });
}

#[test]
fn step_parts_run_in_order_with_substitution() {
    let step = StepSpec {
        name: "s".to_string(),
        watch: vec![WatchSpec {
            name: "pods".to_string(),
            kind: "Pod".to_string(),
            group: "".to_string(),
            version: "v1".to_string(),
            namespace: "${BLACKJACK_NAMESPACE}".to_string(),
            labels: None,
            fields: None,
        }],
        bucket: vec![BucketSpec { name: "pods".to_string(), operations: vec![BucketOperation::Create] }],
        apply: vec![ApplySpec { path: "a.yaml".to_string(), override_namespace: true, namespace: "${BLACKJACK_NAMESPACE}".to_string() }],
        delete: vec![ApplySpec { path: "d.yaml".to_string(), override_namespace: true, namespace: "x".to_string() }],
        script: vec!["run.sh".to_string()],
        sleep: 2,
        wait: vec![WaitSpec { target: "pods".to_string(), condition: Expr::OneExpr { one: Json::String("${BLACKJACK_VALUE}".to_string()) }, timeout: 5 }],
    };
    let mut runner = StepRunner::new(step, env_with(&[("BLACKJACK_NAMESPACE", "ns1")]));
    match runner.next_action() {
        StepAction::StartWatches(ws) => assert_eq!(ws[0].namespace, "ns1"),
        other => panic!("{other:?}"),
    }
    assert!(matches!(runner.next_action(), StepAction::SetBuckets(_)));
    match runner.next_action() {
        StepAction::Apply(a) => assert_eq!(a.namespace, "ns1"),
        other => panic!("{other:?}"),
    }
    assert!(matches!(runner.next_action(), StepAction::Delete(_)));
    match runner.next_action() {
        StepAction::RunScript(s) => assert_eq!(s, "run.sh"),
        other => panic!("{other:?}"),
    }
    assert!(runner.script_finished(true, String::new(), String::new(), "export BLACKJACK_VALUE='xyz'\n").is_ok());
    assert!(matches!(runner.next_action(), StepAction::Sleep(2)));
    match runner.next_action() {
        StepAction::Wait(ws) => assert_eq!(ws[0].condition.render(), r#"ANY("xyz")"#),
        other => panic!("{other:?}"),
    }
    assert!(matches!(runner.next_action(), StepAction::Done));
}

#[test]
fn failing_script_fails_step() {
    let mut runner = StepRunner::new(StepSpec {
        name: "s".to_string(), watch: vec![], bucket: vec![], apply: vec![], delete: vec![],
        script: vec!["x.sh".to_string()], sleep: 0, wait: vec![],
    }, Env::new());
    assert!(matches!(runner.next_action(), StepAction::StartWatches(_)));
    assert!(matches!(runner.next_action(), StepAction::SetBuckets(_)));
    assert!(matches!(runner.next_action(), StepAction::RunScript(_)));
    match runner.script_finished(false, "out".to_string(), "err".to_string(), "") {
        Err(Error::ScriptFailed(o, e)) => assert_eq!((o.as_str(), e.as_str()), ("out", "err")),
        other => panic!("{other:?}"),
    }
    assert!(matches!(runner.next_action(), StepAction::Done));
}

#[test]
fn apply_spec_substitution() {
    let env = env_with(&[("BLACKJACK_DIR", "m")]);
    let a = ApplySpec { path: "${BLACKJACK_DIR}/x.yaml".to_string(), override_namespace: false, namespace: "n".to_string() }.subst_env(&env);
    assert_eq!(a.path, "m/x.yaml");
    assert!(!a.override_namespace);
}

#[test]
fn namespace_deletion_graceful() {
    let mut d = NamespaceDeletion::new();
    assert!(matches!(d.step(NamespaceEvent::Gone), NamespaceAction::Finished(Ok(()))));
    let mut d = NamespaceDeletion::new();
    assert!(matches!(d.step(NamespaceEvent::Present), NamespaceAction::Check));
    assert!(matches!(d.step(NamespaceEvent::NotFound), NamespaceAction::Finished(Ok(()))));
}

#[test]
fn namespace_deletion_forced_after_ten_checks() {
    let mut d = NamespaceDeletion::new();
    assert!(matches!(d.step(NamespaceEvent::Present), NamespaceAction::Check));
    for _ in 0..9 {
        assert!(matches!(d.step(NamespaceEvent::Present), NamespaceAction::Check));
    }
    assert!(matches!(d.step(NamespaceEvent::Present), NamespaceAction::ClearFinalizers));
    assert!(matches!(d.step(NamespaceEvent::Gone), NamespaceAction::ForceDelete));
    assert!(matches!(d.step(NamespaceEvent::Present), NamespaceAction::Check));
    assert!(matches!(d.step(NamespaceEvent::NotFound), NamespaceAction::Finished(Ok(()))));
}

#[test]
fn namespace_deletion_error() {
    let mut d = NamespaceDeletion::new();
    match d.step(NamespaceEvent::Failed("boom".to_string())) {
        NamespaceAction::Finished(Err(Error::KubeError(m))) => assert_eq!(m, "boom"),
        other => panic!("{other:?}"),
    }
}

#[test]
fn errors_aggregated() {
    assert!(aggregate_errors(vec![]).is_ok());
    assert!(matches!(aggregate_errors(vec![Error::SIGINT]), Err(Error::SIGINT)));
    match aggregate_errors(vec![Error::SIGINT, Error::NoUidError]) {
        Err(Error::MultipleErrors(v)) => assert_eq!(v.len(), 2),
        other => panic!("{other:?}"),
    }
}

#[test]
fn first_step_environment() {
    let env = test_env(&"ns-a-b".to_string());
    assert_eq!(env.get(&"BLACKJACK_NAMESPACE".to_string()), Some("ns-a-b".to_string()));
    assert_eq!(env.bindings.len(), 1);
}

#[test]
fn substitution_follows_binding_order() {
    let forward = env_with(&[("A", "x"), ("xB", "y")]);
    assert_eq!(subst_or_not("${${A}B}".to_string(), &forward), "y");
    let backward = env_with(&[("xB", "y"), ("A", "x")]);
    assert_eq!(subst_or_not("${${A}B}".to_string(), &backward), "${xB}");
    let shadowed = env_with(&[("A", "old"), ("A", "new")]);
    assert_eq!(subst_or_not("${A}".to_string(), &shadowed), "new");
}

#[test]
fn script_command_sources_and_dumps_exports() {
    assert_eq!(shell_command("./setup.sh", "/tmp/env"), ". ./setup.sh && export -p > /tmp/env");
}

#[test]
fn empty_parts_are_skipped_in_order() {
    let step = StepSpec {
        name: "s".to_string(), watch: vec![], bucket: vec![], apply: vec![], delete: vec![],
        script: vec!["a.sh".to_string(), "b.sh".to_string()], sleep: 0, wait: vec![],
    };
    let mut runner = StepRunner::new(step, Env::new());
    assert!(matches!(runner.next_action(), StepAction::StartWatches(_)));
    assert!(matches!(runner.next_action(), StepAction::SetBuckets(_)));
    match runner.next_action() {
        StepAction::RunScript(s) => assert_eq!(s, "a.sh"),
        other => panic!("{other:?}"),
    }
    assert!(runner.script_finished(true, String::new(), String::new(), "").is_ok());
    match runner.next_action() {
        StepAction::RunScript(s) => assert_eq!(s, "b.sh"),
        other => panic!("{other:?}"),
    }
    assert!(matches!(runner.next_action(), StepAction::Done));
    assert!(matches!(runner.next_action(), StepAction::Done));
}
