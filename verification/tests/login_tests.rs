use helyos_cli::config::{Config, Context};
use helyos_cli::ctxmap::ContextMap;
use helyos_cli::login::{
    ca_source, check_pin, derive_name, fingerprints_match, login_context, login_message, normalize_server,
    record_login, token_source, unique_context_name, CaSource, PinCheck, TokenSource,
};

#[test]
fn normalize_adds_scheme_and_port() {
    assert_eq!(normalize_server("h.example"), "https://h.example:6443");
    assert_eq!(normalize_server("h.example:7000"), "https://h.example:7000");
    assert_eq!(normalize_server("https://h:6443"), "https://h:6443");
    assert_eq!(normalize_server("http://localhost:6443"), "http://localhost:6443");
}

#[test]
fn fingerprints_match_normalizes() {
    assert!(fingerprints_match("9F:86:D0", "9f:86:d0"));
    assert!(fingerprints_match("sha256:9f86d0", "9f:86:d0"));
    assert!(!fingerprints_match("9f:86", "9f:87"));
}

#[test]
fn derive_name_sanitizes_host() {
    assert_eq!(derive_name("https://helyos.acme.internal:6443"), "helyos-acme-internal");
    assert_eq!(derive_name("https://10.0.0.5:6443"), "10-0-0-5");
}

#[test]
fn unique_name_suffixes_on_collision() {
    let mut contexts = ContextMap::new();
    contexts.insert("acme".to_string(), Context::default());
    let cfg = Config { current_context: None, contexts };
    assert_eq!(unique_context_name(&cfg, "acme"), "acme-2");
    assert_eq!(unique_context_name(&cfg, "fresh"), "fresh");
}

#[test]
fn unique_name_skips_every_taken_suffix() {
    let mut contexts = ContextMap::new();
    contexts.insert("acme".to_string(), Context::default());
    contexts.insert("acme-2".to_string(), Context::default());
    contexts.insert("acme-3".to_string(), Context::default());
    let cfg = Config { current_context: None, contexts };
    assert_eq!(unique_context_name(&cfg, "acme"), "acme-4");
}

#[test]
fn normalize_trims_and_keeps_given_port() {
    assert_eq!(normalize_server("  h  "), "https://h:6443");
    assert_eq!(normalize_server("http://h:80/x"), "http://h:80/x");
}

#[test]
fn normalizing_twice_changes_nothing() {
    for input in ["h.example", " http://h ", "https://h:7000/api", "h:1", ""] {
        let once = normalize_server(input);
        assert_eq!(normalize_server(&once), once);
    }
    let once = normalize_server("https://h/p");
    assert_eq!(normalize_server(&once), once);
}

#[test]
fn normalize_puts_the_port_before_the_path() {
    assert_eq!(normalize_server("h.example/api"), "https://h.example:6443/api");
    assert_eq!(normalize_server("https://h/p"), "https://h:6443/p");
    assert_eq!(normalize_server("http://h:8080/p"), "http://h:8080/p");
    assert_eq!(normalize_server("h/a:1/b"), "https://h:6443/a:1/b");
}

#[test]
fn derive_name_falls_back_to_default() {
    assert_eq!(derive_name("https://:6443"), "default");
    assert_eq!(derive_name("h_x.y"), "h-x-y");
}

#[test]
fn ca_comes_from_file_daemon_or_nowhere() {
    assert_eq!(ca_source(true, "https://h:6443", Some("ca.pem")), CaSource::Skip);
    assert_eq!(ca_source(false, "http://h:6443", Some("ca.pem")), CaSource::Skip);
    assert_eq!(ca_source(false, "https://h:6443", Some("ca.pem")), CaSource::File("ca.pem".to_string()));
    assert_eq!(ca_source(false, "https://h:6443", None), CaSource::Fetch);
}

#[test]
fn token_sources_in_order_of_preference() {
    assert_eq!(token_source(Some("t"), true, Some("e"), true), TokenSource::Given("t".to_string()));
    assert_eq!(token_source(None, true, Some("e"), true), TokenSource::Stdin);
    assert_eq!(token_source(None, false, Some("e"), false), TokenSource::Given("e".to_string()));
    assert_eq!(token_source(None, false, Some(""), true), TokenSource::Prompt);
    assert_eq!(token_source(None, false, None, false), TokenSource::Missing);
}

#[test]
fn pin_check_compares_normalized_fingerprints() {
    assert_eq!(check_pin(Some("sha256:AB:CD"), "ab:cd"), PinCheck::Pinned);
    assert_eq!(check_pin(None, "ab:cd"), PinCheck::Ask);
    match check_pin(Some("ab:ce"), "ab:cd") {
        PinCheck::Mismatch(m) => {
            assert_eq!(m, "CA fingerprint mismatch — aborting (possible MITM)\n  expected: ab:ce\n  got:      ab:cd")
        }
        other => panic!("unexpected {other:?}"),
    }
}

#[test]
fn login_context_encodes_ca_in_base64() {
    let c = login_context("https://h:6443", "tok", Some(b"PEM"), Some("ab:cd"), Some("web"), false, Some("ci"));
    assert_eq!(c.server, "https://h:6443");
    assert_eq!(c.token.as_deref(), Some("tok"));
    assert_eq!(c.ca.as_deref(), Some("UEVN"));
    assert_eq!(c.ca_sha256.as_deref(), Some("ab:cd"));
    assert_eq!(c.project.as_deref(), Some("web"));
    assert_eq!(c.token_name.as_deref(), Some("ci"));
    let bare = login_context("http://h:6443", "tok", None, None, None, true, None);
    assert!(bare.ca.is_none() && bare.insecure);
}

#[test]
fn login_records_and_activates_context() {
    let mut cfg = Config { current_context: None, contexts: ContextMap::new() };
    let c = login_context("https://helyos.acme.internal:6443", "tok", None, None, None, false, None);
    let name = record_login(&mut cfg, None, "https://helyos.acme.internal:6443", c, true);
    assert_eq!(name, "helyos-acme-internal");
    assert_eq!(cfg.active_name().as_deref(), Some("helyos-acme-internal"));
    let c2 = login_context("https://helyos.acme.internal:6443", "tok2", None, None, None, false, None);
    let name2 = record_login(&mut cfg, None, "https://helyos.acme.internal:6443", c2, false);
    assert_eq!(name2, "helyos-acme-internal-2");
    assert_eq!(cfg.active_name().as_deref(), Some("helyos-acme-internal"));
    assert_eq!(cfg.contexts.len(), 2);
}

#[test]
fn login_message_names_identity_and_context() {
    assert_eq!(
        login_message("https://h:6443", Some("ci"), "h"),
        "Logged in to https://h:6443 as 'ci'. Context 'h' is now active."
    );
    assert_eq!(
        login_message("https://h:6443", None, "h"),
        "Logged in to https://h:6443 as 'token'. Context 'h' is now active."
    );
}

#[test]
fn fingerprint_is_colon_separated_sha256() {
    assert_eq!(
        helyos_cli::login::fingerprint_sha256(b"abc"),
        "BA:78:16:BF:8F:01:CF:EA:41:41:40:DE:5D:AE:22:23:B0:03:61:A3:96:17:7A:9C:B4:10:FF:61:F2:00:15:AD"
    );
    assert!(fingerprints_match(
        &helyos_cli::login::fingerprint_sha256(b"abc"),
        "sha256:ba7816bf8f01cfea414140de5dae2223b00361a396177a9cb410ff61f20015ad"
    ));
}

#[test]
fn addresses_without_a_path_keep_their_scheme() {
    assert_eq!(normalize_server("http://h"), "http://h:6443");
    assert_eq!(normalize_server("http://h:80"), "http://h:80");
    assert_eq!(normalize_server(" h:7 "), "https://h:7");
}
