use helyos_cli::config::{config_location, parse, Config, Context};
use helyos_cli::context::{context_rows, current_lines, logout, remove, rename, tls_mode, use_context};
use helyos_cli::ctxmap::ContextMap;

#[test]
fn parses_named_contexts_and_current() {
    let c = parse(
        "current-context = \"prod\"\n\n[context.local]\nserver = \"http://localhost:6443\"\ntoken = abc\nproject = default\n\n[context.prod]\nserver = \"https://h:6443\"\ninsecure = true\n",
    );
    assert_eq!(c.current_context.as_deref(), Some("prod"));
    assert_eq!(c.contexts.len(), 2);
    let local = c.contexts.get("local").unwrap();
    assert_eq!(local.server, "http://localhost:6443");
    assert_eq!(local.token.as_deref(), Some("abc"));
    assert_eq!(local.project.as_deref(), Some("default"));
    assert!(c.contexts.get("prod").unwrap().insecure);
}

#[test]
fn legacy_flat_file_becomes_default_context() {
    let c = parse("server = http://localhost:6443\ntoken = sekret\n");
    assert_eq!(c.contexts.len(), 1);
    let d = c.contexts.get("default").unwrap();
    assert_eq!(d.server, "http://localhost:6443");
    assert_eq!(d.token.as_deref(), Some("sekret"));
}

#[test]
fn active_prefers_current_then_single() {
    let two = parse("[context.a]\nserver = http://a\n[context.b]\nserver = http://b\n");
    assert!(two.active().is_none(), "ambiguous with 2 contexts and no current-context");
    let cur = parse("current-context = a\n[context.a]\nserver = http://a\n[context.b]\nserver = http://b\n");
    assert_eq!(cur.active().unwrap().server, "http://a");
    let one = parse("[context.only]\nserver = http://only\n");
    assert_eq!(one.active().unwrap().server, "http://only");
    assert_eq!(one.active_name().as_deref(), Some("only"));
}

#[test]
fn unknown_sections_and_keys_ignored() {
    let c = parse("[weird]\nfoo = bar\n[context.x]\nserver = http://x\nbogus = 1\n");
    assert_eq!(c.contexts.len(), 1);
    assert_eq!(c.contexts.get("x").unwrap().server, "http://x");
}

#[test]
fn empty_input_is_empty_config() {
    let c = parse("");
    assert!(c.contexts.is_empty() && c.current_context.is_none());
    assert!(c.active().is_none());
}

fn ctx(server: &str) -> Context {
    Context {
        server: server.to_string(),
        token: Some("tok".to_string()),
        ca: Some("Q0E=".to_string()),
        ca_sha256: Some("ab:cd".to_string()),
        project: Some("web".to_string()),
        insecure: false,
        token_name: Some("ci".to_string()),
    }
}

fn two_contexts() -> Config {
    let mut contexts = ContextMap::new();
    contexts.insert("a".to_string(), ctx("https://a:6443"));
    contexts.insert("b".to_string(), ctx("https://b:6443"));
    Config { current_context: Some("a".to_string()), contexts }
}

#[test]
fn active_name_follows_use_context() {
    let mut cfg = two_contexts();
    assert_eq!(use_context(&mut cfg, "b").unwrap(), "Switched to context 'b'");
    assert_eq!(cfg.active_name().as_deref(), Some("b"));
    assert_eq!(cfg.active().unwrap().server, "https://b:6443");
}

#[test]
fn use_context_refuses_unknown_name() {
    let mut cfg = two_contexts();
    let err = use_context(&mut cfg, "zzz").unwrap_err();
    assert_eq!(err.message(), "no context named 'zzz'");
    assert_eq!(cfg.active_name().as_deref(), Some("a"));
}

#[test]
fn remove_forgets_current_context() {
    let mut cfg = two_contexts();
    assert_eq!(remove(&mut cfg, "a").unwrap(), "Removed context 'a'");
    assert!(cfg.contexts.get("a").is_none());
    assert!(cfg.current_context.is_none());
    assert_eq!(cfg.contexts.get("b").unwrap().server, "https://b:6443");
    assert_eq!(cfg.active_name().as_deref(), Some("b"));
}

#[test]
fn rename_moves_context_and_current() {
    let mut cfg = two_contexts();
    assert_eq!(rename(&mut cfg, "a", "c").unwrap(), "Renamed context 'a' → 'c'");
    assert_eq!(cfg.current_context.as_deref(), Some("c"));
    assert_eq!(cfg.contexts.get("c").unwrap().server, "https://a:6443");
    assert!(cfg.contexts.get("a").is_none());
    let err = rename(&mut cfg, "b", "c").unwrap_err();
    assert_eq!(err.message(), "context 'c' already exists");
    let err = rename(&mut cfg, "x", "y").unwrap_err();
    assert_eq!(err.message(), "no context named 'x'");
}

#[test]
fn set_edits_server_and_project() {
    let mut cfg = two_contexts();
    let msg = helyos_cli::context::set(&mut cfg, "b", Some("https://b2:7000"), None).unwrap();
    assert_eq!(msg, "Updated context 'b'");
    let b = cfg.contexts.get("b").unwrap();
    assert_eq!(b.server, "https://b2:7000");
    assert_eq!(b.project.as_deref(), Some("web"));
    assert!(helyos_cli::context::set(&mut cfg, "nope", None, None).is_err());
}

#[test]
fn logout_keeps_server_and_ca_but_drops_token() {
    let mut cfg = two_contexts();
    let msg = logout(&mut cfg, None).unwrap();
    assert_eq!(msg, "Logged out of context 'a' (server + pinned CA kept; re-login with one paste)");
    let a = cfg.contexts.get("a").unwrap();
    assert!(a.token.is_none());
    assert!(a.token_name.is_none());
    assert_eq!(a.server, "https://a:6443");
    assert_eq!(a.ca.as_deref(), Some("Q0E="));
    assert_eq!(a.ca_sha256.as_deref(), Some("ab:cd"));
    assert_eq!(cfg.contexts.get("b").unwrap().token.as_deref(), Some("tok"));
}

#[test]
fn logout_without_active_context_fails() {
    let mut contexts = ContextMap::new();
    contexts.insert("a".to_string(), ctx("https://a:6443"));
    contexts.insert("b".to_string(), ctx("https://b:6443"));
    let mut cfg = Config { current_context: None, contexts };
    let err = logout(&mut cfg, None).unwrap_err();
    assert_eq!(err.message(), "no active context to log out of");
}

#[test]
fn tls_mode_reports_pinning() {
    let mut c = ctx("https://a:6443");
    assert_eq!(tls_mode(&c), "pinned");
    c.insecure = true;
    assert_eq!(tls_mode(&c), "insecure");
}

#[test]
fn context_rows_mark_the_active_one() {
    let cfg = two_contexts();
    let rows = context_rows(&cfg);
    assert_eq!(rows.len(), 2);
    assert_eq!(rows[0][1], "a");
    assert_eq!(rows[1][1], "b");
    assert_ne!(rows[0][0], rows[1][0]);
    assert!(current_lines(&cfg).is_ok());
}

#[test]
fn saved_config_reads_back() {
    let cfg = two_contexts();
    let text = cfg.to_text();
    assert!(text.starts_with("current-context = \"a\"\n[context.\"a\"]\nserver = \"https://a:6443\"\ntoken = \"tok\"\n"));
    let back = parse(&text);
    assert_eq!(back.current_context.as_deref(), Some("a"));
    assert_eq!(back.contexts.len(), 2);
    assert_eq!(back.contexts.get("a").unwrap(), cfg.contexts.get("a").unwrap());
    assert_eq!(back.contexts.get("b").unwrap(), cfg.contexts.get("b").unwrap());
}

#[test]
fn insecure_flag_survives_saving() {
    let mut contexts = ContextMap::new();
    let mut c = ctx("https://x:6443");
    c.insecure = true;
    c.token = None;
    contexts.insert("x".to_string(), c.clone());
    let cfg = Config { current_context: None, contexts };
    let text = cfg.to_text();
    assert!(text.contains("insecure = \"true\"\n"));
    assert!(!text.contains("token ="));
    let back = parse(&text);
    assert_eq!(back.contexts.get("x").unwrap(), &c);
    assert!(back.current_context.is_none());
}

#[test]
fn config_location_prefers_the_override_then_home() {
    assert_eq!(config_location(Some("/etc/h.toml"), Some("/home/u"), None), Some(("/etc/h.toml".to_string(), false)));
    assert_eq!(config_location(Some(""), Some("/home/u"), Some("C:\\u")), Some(("/home/u".to_string(), true)));
    assert_eq!(config_location(None, Some(""), Some("C:\\u")), Some(("C:\\u".to_string(), true)));
    assert_eq!(config_location(None, None, Some("")), None);
    assert_eq!(config_location(None, None, None), None);
}

#[test]
fn blank_and_comment_lines_change_nothing() {
    let plain = "current-context = \"a\"\n[context.a]\nserver = \"https://a:6443\"\ntoken = \"t\"\n";
    let padded = "\n# header\ncurrent-context = \"a\"\n\n[context.a]\n   # note\nserver = \"https://a:6443\"\n\ntoken = \"t\"\n# end\n";
    assert_eq!(parse(plain).to_text(), parse(padded).to_text());
    let c = parse(padded);
    c.contexts.names_in_order();
    assert_eq!(c.current_context.as_deref(), Some("a"));
}

#[test]
fn a_named_context_overrides_the_current_one() {
    let cfg = two_contexts();
    assert_eq!(cfg.select(Some("b")).unwrap().unwrap().server, "https://b:6443");
    assert_eq!(cfg.select(None).unwrap().unwrap().server, "https://a:6443");
    assert!(cfg.select(Some("zzz")).is_err());
    let empty = parse("");
    assert!(empty.select(None).unwrap().is_none());
}
