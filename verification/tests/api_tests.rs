use helyos_cli::api::{command_client, error_hint, failure_message, format_api_error, normalize_base_url, NexaClient};
use helyos_cli::config::Context;
use reqwest::StatusCode;

fn json_error(body: &str) -> Option<String> {
    match serde_json::from_str::<serde_json::Value>(body) {
        Ok(serde_json::Value::Object(m)) => Some(m.get("error").and_then(|e| e.as_str()).unwrap_or("").to_string()),
        _ => None,
    }
}

fn format(status: StatusCode, body: &str) -> String {
    let e = json_error(body);
    format_api_error(status.as_u16(), body, e.as_deref())
}

#[test]
fn hint_401_and_403_mention_auth() {
    let h = error_hint(StatusCode::UNAUTHORIZED.as_u16()).expect("401 should have a hint");
    assert!(h.to_lowercase().contains("auth"), "got: {h}");
    assert_eq!(error_hint(StatusCode::UNAUTHORIZED.as_u16()), error_hint(StatusCode::FORBIDDEN.as_u16()));
}

#[test]
fn hint_404_mentions_resource_lookup() {
    let h = error_hint(StatusCode::NOT_FOUND.as_u16()).expect("404 should have a hint");
    assert!(h.contains("nexa pods") || h.to_lowercase().contains("resource"), "got: {h}");
}

#[test]
fn hint_500_points_to_logs() {
    let h = error_hint(StatusCode::INTERNAL_SERVER_ERROR.as_u16()).expect("500 should have a hint");
    assert!(h.contains("journalctl") || h.to_lowercase().contains("log"), "got: {h}");
}

#[test]
fn hint_502_and_503_suggest_retry() {
    for code in [StatusCode::BAD_GATEWAY, StatusCode::SERVICE_UNAVAILABLE] {
        let h = error_hint(code.as_u16()).unwrap_or_else(|| panic!("{code} should have a hint"));
        assert!(h.to_lowercase().contains("retry"), "code {code}, got: {h}");
    }
    assert_eq!(error_hint(StatusCode::BAD_GATEWAY.as_u16()), error_hint(StatusCode::SERVICE_UNAVAILABLE.as_u16()));
}

#[test]
fn hint_none_for_unmapped_codes() {
    assert!(error_hint(StatusCode::BAD_REQUEST.as_u16()).is_none());
    assert!(error_hint(StatusCode::CONFLICT.as_u16()).is_none());
    assert!(error_hint(StatusCode::OK.as_u16()).is_none());
    assert!(error_hint(StatusCode::from_u16(418).unwrap().as_u16()).is_none());
}

#[test]
fn format_prefers_json_error_field() {
    let body = r#"{"error":"deployment quota exceeded"}"#;
    let msg = format(StatusCode::INTERNAL_SERVER_ERROR, body);
    assert_eq!(msg, "deployment quota exceeded");
}

#[test]
fn format_ignores_empty_json_error_field() {
    let msg = format(StatusCode::NOT_FOUND, r#"{"error":""}"#);
    assert_eq!(msg, "Resource not found");
}

#[test]
fn format_404_default_message() {
    assert_eq!(format(StatusCode::NOT_FOUND, ""), "Resource not found");
}

#[test]
fn format_409_default_message() {
    let msg = format(StatusCode::CONFLICT, "<html>nope</html>");
    assert_eq!(msg, "Resource already exists or conflict");
}

#[test]
fn format_422_includes_raw_body() {
    let msg = format(StatusCode::UNPROCESSABLE_ENTITY, "missing field: image");
    assert!(msg.starts_with("Invalid request:"), "got: {msg}");
    assert!(msg.contains("missing field: image"), "got: {msg}");
}

#[test]
fn format_500_default_message() {
    let msg = format(StatusCode::INTERNAL_SERVER_ERROR, "plain text crash");
    assert!(msg.contains("Internal server error"), "got: {msg}");
}

#[test]
fn format_unmapped_code_falls_back_to_generic() {
    let msg = format(StatusCode::BAD_GATEWAY, "upstream down");
    assert!(msg.contains("Request failed"), "got: {msg}");
    assert!(msg.contains("upstream down"), "got: {msg}");
    assert!(msg.contains("502"), "got: {msg}");
}

#[test]
fn format_invalid_json_body_is_treated_as_text() {
    let msg = format(StatusCode::NOT_FOUND, "{not-json");
    assert_eq!(msg, "Resource not found");
}

#[test]
fn base_url_trailing_slashes_trimmed() {
    let c = NexaClient::new("http://localhost:6443///", None);
    assert_eq!(c.base_url(), "http://localhost:6443");
}

#[test]
fn base_url_without_trailing_slash_unchanged() {
    let c = NexaClient::new("http://10.0.0.1:6443", Some("tok"));
    assert_eq!(c.base_url(), "http://10.0.0.1:6443");
}

#[test]
fn generic_message_shows_status_and_reason() {
    assert_eq!(format_api_error(502, "upstream down", None), "Request failed (502 Bad Gateway): upstream down");
    assert_eq!(format_api_error(599, "x", None), "Request failed (599 <unknown status code>): x");
}

#[test]
fn failure_message_appends_hint() {
    assert_eq!(
        failure_message(404, "", None),
        "Resource not found\n  hint: Verify the resource name and project with: nexa pods / nexa deployments"
    );
    assert_eq!(failure_message(409, "", None), "Resource already exists or conflict");
}

#[test]
fn request_urls_join_base_and_path() {
    let c = NexaClient::new("https://h:6443/", None);
    assert_eq!(c.url("/api/v1/pods"), "https://h:6443/api/v1/pods");
    assert_eq!(normalize_base_url("/"), "");
}

#[test]
fn clients_carry_their_bearer_token() {
    assert_eq!(NexaClient::new("http://h:6443", Some("tok")).authorization(), Some("Bearer tok"));
    assert_eq!(NexaClient::new("http://h:6443", None).authorization(), None);
    let c = NexaClient::with_tls("https://h:6443/", Some("t2"), None, true).unwrap();
    assert_eq!(c.authorization(), Some("Bearer t2"));
    assert_eq!(c.base_url(), "https://h:6443");
    let broken = b"-----BEGIN CERTIFICATE-----\n!!!!\n-----END CERTIFICATE-----\n";
    assert!(NexaClient::with_tls("https://h:6443", None, Some(broken.as_slice()), false).is_none());
}

#[test]
fn tokens_that_are_no_header_value_are_not_sent() {
    assert_eq!(NexaClient::new("http://h:6443", Some("bad\ntoken")).authorization(), None);
    assert_eq!(NexaClient::new("http://h:6443", Some("tab\tok")).authorization(), Some("Bearer tab\tok"));
    assert_eq!(NexaClient::new("http://h:6443", Some("ünï")).authorization(), Some("Bearer ünï"));
}

fn context_with_ca(server: &str, ca: Option<&str>) -> Context {
    Context {
        server: server.to_string(),
        token: Some("tok".to_string()),
        ca: ca.map(str::to_string),
        ca_sha256: None,
        project: None,
        insecure: false,
        token_name: None,
    }
}

#[test]
fn commands_use_the_pinned_ca_of_their_context() {
    let broken = context_with_ca("https://h:6443", Some("LS0tLS1CRUdJTiBDRVJUSUZJQ0FURS0tLS0tCiEhISEKLS0tLS1FTkQgQ0VSVElGSUNBVEUtLS0tLQo="));
    assert!(command_client("https://h:6443", Some("t"), Some(&broken)).is_none());
    let not_base64 = context_with_ca("https://h:6443", Some("%%%"));
    assert!(command_client("https://h:6443", Some("t"), Some(&not_base64)).is_none());
    // another server than the context's: the context's CA is not used
    let c = command_client("https://other:6443/", Some("t"), Some(&broken)).unwrap();
    assert_eq!(c.base_url(), "https://other:6443");
    assert_eq!(c.authorization(), Some("Bearer t"));
    let plain = context_with_ca("https://h:6443", None);
    assert!(command_client("https://h:6443", None, Some(&plain)).is_some());
    assert!(command_client("https://h:6443", None, None).is_some());
}
