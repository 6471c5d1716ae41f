use atp_router::policy::{memory_endpoint, policy_allows, policy_endpoint, policy_question};
use atp_router::Meta;
use serde_json::Value;

fn object(key: &str, member: Value) -> Value {
    let mut members = serde_json::Map::new();
    members.insert(key.to_string(), member);
    Value::Object(members)
}

#[test]
fn endpoint_without_trailing_slashes() {
    assert_eq!(policy_endpoint("http://opa:8181"), "http://opa:8181/v1/data/atp/policy/allow");
    assert_eq!(policy_endpoint("http://opa:8181/"), "http://opa:8181/v1/data/atp/policy/allow");
    assert_eq!(policy_endpoint("http://opa:8181///"), "http://opa:8181/v1/data/atp/policy/allow");
    assert_eq!(policy_endpoint("http://opa/x/"), "http://opa/x/v1/data/atp/policy/allow");
    assert_eq!(policy_endpoint(""), "/v1/data/atp/policy/allow");
    assert_eq!(policy_endpoint("//"), "/v1/data/atp/policy/allow");
}

#[test]
fn question_wraps_the_attributes() {
    let meta = Meta {
        task_type: Some("ask".into()),
        languages: None,
        risk: Some("low".into()),
        data_scope: Some(vec!["public".into()]),
        trace: None,
        tool_permissions: None,
        environment_id: None,
        security_groups: None,
    };
    let text = policy_question(&meta);
    assert_eq!(
        text,
        "{\"input\":{\"meta\":{\"task_type\":\"ask\",\"languages\":null,\"risk\":\"low\",\"data_scope\":[\"public\"],\"trace\":null,\"tool_permissions\":null,\"environment_id\":null,\"security_groups\":null}}}"
    );
    let value: Value = serde_json::from_str(&text).unwrap();
    assert_eq!(value["input"]["meta"]["risk"], "low");
}

#[test]
fn the_answer_decides() {
    assert!(policy_allows(Some(&object("result", Value::Bool(true)))));
    assert!(!policy_allows(Some(&object("result", Value::Bool(false)))));
}

#[test]
fn no_answer_allows() {
    assert!(policy_allows(None));
    assert!(policy_allows(Some(&Value::Null)));
    assert!(policy_allows(Some(&Value::Bool(false))));
    assert!(policy_allows(Some(&object("result", Value::String("false".into())))));
    assert!(policy_allows(Some(&object("other", Value::Bool(false)))));
    assert!(policy_allows(Some(&object("result", Value::Null))));
}

#[test]
fn address_in_the_memory_gateway() {
    assert_eq!(
        memory_endpoint("http://memory-gateway:8080/", "tenant/acme", "demo"),
        "http://memory-gateway:8080/v1/memory/tenant/acme/demo"
    );
    assert_eq!(memory_endpoint("http://m", "", ""), "http://m/v1/memory//");
}
