use proving_api::circuit::CircuitType;
use proving_api::client::{Client, DEFAULT_PROVING_SERVICE_URL};
use proving_api::schema::{GetVkRequest, ProveRequest, QueryTaskRequest};

#[test]
fn new_strips_trailing_slashes_and_defaults_token() {
    let c = Client::new("http://example.com/".to_string(), None);
    assert_eq!(c.proving_service_url, "http://example.com");
    assert_eq!(c.auth_token, "");
    let c2 = Client::new("http://example.com///".to_string(), Some("tok".to_string()));
    assert_eq!(c2.proving_service_url, "http://example.com");
    assert_eq!(c2.auth_token, "tok");
    let c3 = Client::new(DEFAULT_PROVING_SERVICE_URL.to_string(), None);
    assert_eq!(c3.proving_service_url, DEFAULT_PROVING_SERVICE_URL);
}

#[test]
fn endpoints_concatenate_fixed_paths() {
    let c = Client::new("http://h:3000/".to_string(), None);
    assert_eq!(c.health_endpoint(), "http://h:3000/health");
    assert_eq!(c.get_vk_endpoint(), "http://h:3000/get_vk");
    assert_eq!(c.prove_endpoint(), "http://h:3000/prove_task");
    assert_eq!(c.query_task_endpoint(), "http://h:3000/query_task");
}

#[test]
fn get_vk_query_carries_wire_integer_and_version() {
    let req = GetVkRequest {
        circuit_type: CircuitType::Batch,
        circuit_version: "v0.13.1".to_string(),
    };
    let q = Client::get_vk_query(&req);
    assert_eq!(q.len(), 2);
    assert_eq!(q[0], ("circuit_type".to_string(), "2".to_string()));
    assert_eq!(q[1], ("circuit_version".to_string(), "v0.13.1".to_string()));
}

#[test]
fn query_task_query_carries_task_id() {
    let req = QueryTaskRequest { task_id: "abc-123".to_string() };
    let q = Client::query_task_query(&req);
    assert_eq!(q, vec![("task_id".to_string(), "abc-123".to_string())]);
}

#[test]
fn authorization_header_uses_bearer_scheme() {
    let c = Client::new("http://h".to_string(), Some("tok".to_string()));
    assert_eq!(c.authorization_value(), "Bearer tok");
    let c2 = Client::new("http://h".to_string(), None);
    assert_eq!(c2.authorization_value(), "Bearer ");
}

#[test]
fn health_verdict_requires_exact_ok_body() {
    assert!(Client::health_ok("OK"));
    assert!(!Client::health_ok("ok"));
    assert!(!Client::health_ok("OK "));
    assert!(!Client::health_ok(""));
    assert!(!Client::health_ok("OKOK"));
}

#[test]
fn new_handles_slash_only_and_clean_urls() {
    let c = Client::new("///".to_string(), None);
    assert_eq!(c.proving_service_url, "");
    let c2 = Client::new("http://example.com".to_string(), None);
    assert_eq!(c2.proving_service_url, "http://example.com");
}

#[test]
fn client_reports_itself_non_parallelizable() {
    let c = Client::new("http://h".to_string(), None);
    assert!(c.is_local());
}

#[test]
fn prove_request_body_is_canonical_json() {
    let req = ProveRequest {
        circuit_type: CircuitType::Chunk,
        circuit_version: "v0.13.1".to_string(),
        hard_fork_name: "euclidV2".to_string(),
        input: "<detail>".to_string(),
    };
    let body = req.to_json();
    assert_eq!(
        body,
        "{\"circuit_type\":1,\"circuit_version\":\"v0.13.1\",\"hard_fork_name\":\"euclidV2\",\"input\":\"<detail>\"}"
    );
    let v: serde_json::Value = serde_json::from_str(&body).unwrap();
    assert_eq!(v["circuit_type"].as_u64().unwrap(), 1);
}

#[test]
fn prove_request_body_escapes_serialized_task_details() {
    // The input of a prove request is opaque text, typically itself
    // serialized JSON: the body must carry it with proper escaping.
    let detail = "{\"block_hashes\":[\"0x11\"]}";
    let req = ProveRequest {
        circuit_type: CircuitType::Chunk,
        circuit_version: "v0.13.1".to_string(),
        hard_fork_name: "euclidV2".to_string(),
        input: detail.to_string(),
    };
    let body = req.to_json();
    let v: serde_json::Value = serde_json::from_str(&body).unwrap();
    assert_eq!(v["input"].as_str().unwrap(), detail);
}
