use helyos_cli::cli::{
    check_server, is_json_mode, resolve_server, scaled_message, scaling_message, set_json_mode, text_mode, warns_plain_http,
};

#[test]
fn json_mode_switches() {
    let mut m = text_mode();
    assert!(!is_json_mode(&m));
    set_json_mode(&mut m, true);
    assert!(is_json_mode(&m));
}

#[test]
fn server_precedence() {
    assert_eq!(resolve_server(Some("https://a:1"), Some("https://b:2")), "https://a:1");
    assert_eq!(resolve_server(None, Some("https://b:2")), "https://b:2");
    assert_eq!(resolve_server(None, None), "http://localhost:6443");
}

#[test]
fn plain_http_warning_spares_localhost() {
    assert!(!warns_plain_http("http://localhost:6443"));
    assert!(!warns_plain_http("http://127.0.0.1:6443"));
    assert!(warns_plain_http("http://10.0.0.1:6443"));
    assert!(!warns_plain_http("https://10.0.0.1:6443"));
}

#[test]
fn scale_messages_pluralize() {
    assert_eq!(scaling_message("api", 1), "Scaling 'api' to 1 replica...");
    assert_eq!(scaling_message("api", 3), "Scaling 'api' to 3 replicas...");
    assert_eq!(scaled_message("api", 0), "Scaled 'api' to 0 replica");
    assert_eq!(scaled_message("api", 2), "Scaled 'api' to 2 replicas");
}

#[test]
fn server_addresses_must_be_urls() {
    assert!(check_server("https://h:6443").is_ok());
    assert!(check_server("http://localhost:6443").is_ok());
    assert_eq!(
        check_server("not a url").unwrap_err(),
        "Invalid server URL: not a url\n  Expected format: http(s)://host:port"
    );
}
