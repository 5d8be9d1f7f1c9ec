use myllm_connect::proxy::{
    authorized, first_model, first_model_in, forward, ollama_up, relay, Header, JsonValue, ProxyAction,
    ProxyRequest, UpstreamOutcome, PROXY_PORT,
};

fn h(name: &str, value: &str) -> Header {
    Header { name: name.to_string(), value: value.as_bytes().to_vec() }
}

fn names(hs: &[Header]) -> Vec<String> {
    hs.iter().map(|h| h.name.clone()).collect()
}

#[test]
fn proxy_port_is_11435() {
    assert_eq!(PROXY_PORT, 11435);
}

#[test]
fn bearer_token_authorizes() {
    let hs = vec![h("host", "x"), h("authorization", "Bearer s3cret")];
    assert!(authorized(&hs, "s3cret"));
}

#[test]
fn missing_or_wrong_token_refused() {
    assert!(!authorized(&vec![h("host", "x")], "s3cret"));
    assert!(!authorized(&vec![h("authorization", "Bearer other")], "s3cret"));
    assert!(!authorized(&vec![h("authorization", "bearer s3cret")], "s3cret"));
    assert!(!authorized(&vec![h("authorization", "Bearer s3cret ")], "s3cret"));
    assert!(!authorized(&vec![h("authorization", "Bearer ")], "s3cret"));
    assert!(!authorized(&vec![h("authorization", "Basic s3cret")], "s3cret"));
}

#[test]
fn only_first_authorization_counts() {
    let hs = vec![h("authorization", "Bearer wrong"), h("authorization", "Bearer s3cret")];
    assert!(!authorized(&hs, "s3cret"));
}

#[test]
fn non_text_header_refused() {
    let hs = vec![Header { name: "authorization".into(), value: b"Bearer \xc3\xa9".to_vec() }];
    assert!(!authorized(&hs, "é"));
    let tab = vec![h("authorization", "Bearer a\tb")];
    assert!(authorized(&tab, "a\tb"));
}

#[test]
fn unauthorized_gets_401() {
    let req = ProxyRequest { method: "GET".into(), path_and_query: Some("/api/tags".into()), headers: vec![h("host", "x")] };
    match forward(&req, "tok") {
        ProxyAction::Respond { status, body } => {
            assert_eq!(status, 401);
            assert_eq!(body, "unauthorized");
        }
        _ => panic!("expected 401"),
    }
}

#[test]
fn authorized_request_forwarded_without_credentials() {
    let req = ProxyRequest {
        method: "POST".into(),
        path_and_query: Some("/api/chat?stream=true".into()),
        headers: vec![
            h("host", "pc.t.ts.net"),
            h("authorization", "Bearer tok"),
            h("content-type", "application/json"),
            h("accept", "*/*"),
        ],
    };
    match forward(&req, "tok") {
        ProxyAction::SendUpstream { method, url, headers } => {
            assert_eq!(method, "POST");
            assert_eq!(url, "http://127.0.0.1:11434/api/chat?stream=true");
            assert_eq!(names(&headers), vec!["content-type", "accept"]);
            assert_eq!(headers[0].value, b"application/json".to_vec());
        }
        _ => panic!("expected forwarding"),
    }
}

#[test]
fn missing_target_goes_to_root() {
    let req = ProxyRequest { method: "GET".into(), path_and_query: None, headers: vec![h("authorization", "Bearer tok")] };
    match forward(&req, "tok") {
        ProxyAction::SendUpstream { method, url, headers } => {
            assert_eq!(method, "GET");
            assert_eq!(url, "http://127.0.0.1:11434/");
            assert!(headers.is_empty());
        }
        _ => panic!("expected forwarding"),
    }
}

#[test]
fn relay_outcomes() {
    match relay(UpstreamOutcome::BodyUnreadable) {
        ProxyAction::Respond { status, body } => {
            assert_eq!(status, 502);
            assert_eq!(body, "bad request body");
        }
        _ => panic!(),
    }
    match relay(UpstreamOutcome::Unreachable) {
        ProxyAction::Respond { status, body } => {
            assert_eq!(status, 502);
            assert_eq!(body, "upstream unreachable");
        }
        _ => panic!(),
    }
    let headers = vec![h("content-type", "application/x-ndjson"), h("transfer-encoding", "chunked"), h("date", "d")];
    match relay(UpstreamOutcome::Answered { status: 200, headers }) {
        ProxyAction::Relay { status, headers } => {
            assert_eq!(status, 200);
            assert_eq!(names(&headers), vec!["content-type", "date"]);
        }
        _ => panic!(),
    }
}

#[test]
fn ollama_up_on_success_status() {
    assert!(ollama_up(Some(200)));
    assert!(ollama_up(Some(204)));
    assert!(!ollama_up(Some(404)));
    assert!(!ollama_up(Some(301)));
    assert!(!ollama_up(None));
}

fn obj(members: Vec<(&str, JsonValue)>) -> JsonValue {
    JsonValue::Object(members.into_iter().map(|(k, v)| (k.to_string(), v)).collect())
}

#[test]
fn first_model_from_tags() {
    let tags = obj(vec![(
        "models",
        JsonValue::Array(vec![
            obj(vec![("name", JsonValue::Str("qwen2.5:14b".into())), ("size", JsonValue::Number("9".into()))]),
            obj(vec![("name", JsonValue::Str("llama3.1:8b".into()))]),
        ]),
    )]);
    assert_eq!(first_model(&Some(tags)), Some("qwen2.5:14b".to_string()));
}

#[test]
fn first_model_absent_cases() {
    assert_eq!(first_model(&None), None);
    assert_eq!(first_model(&Some(obj(vec![("models", JsonValue::Array(vec![]))]))), None);
    assert_eq!(first_model(&Some(obj(vec![]))), None);
    assert_eq!(first_model(&Some(JsonValue::Null)), None);
    let not_str = obj(vec![("models", JsonValue::Array(vec![obj(vec![("name", JsonValue::Number("1".into()))])]))]);
    assert_eq!(first_model(&Some(not_str)), None);
    let not_obj = obj(vec![("models", JsonValue::Array(vec![JsonValue::Str("x".into())]))]);
    assert_eq!(first_model(&Some(not_obj)), None);
}

#[test]
fn rotated_key_locks_out_old_key() {
    let old = myllm_connect::pairing::mint_token();
    let new = myllm_connect::pairing::mint_token();
    let old_device = vec![h("authorization", &format!("Bearer {}", old))];
    let new_device = vec![h("authorization", &format!("Bearer {}", new))];
    assert!(authorized(&old_device, &old));
    assert!(!authorized(&old_device, &new));
    assert!(authorized(&new_device, &new));
}

#[test]
fn first_model_from_tags_body() {
    let body = br#"{"models":[{"name":"qwen2.5:14b","size":9.1,"details":{"family":"qwen2"}},{"name":"llama3.1:8b"}]}"#;
    assert_eq!(first_model_in(Some(&body[..])), Some("qwen2.5:14b".to_string()));
    assert_eq!(first_model_in(Some(&br#"{"models":[]}"#[..])), None);
    assert_eq!(first_model_in(Some(&b"not json"[..])), None);
    assert_eq!(first_model_in(Some(&br#"{"models":[{"name":7}]}"#[..])), None);
    assert_eq!(first_model_in(None), None);
}
