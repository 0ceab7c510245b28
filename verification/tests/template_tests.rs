use helyos_cli::cli::{init_names, spec_file};
use helyos_cli::template::generate_template;

#[test]
fn template_contains_project_name() {
    let t = generate_template("myapp", "myapp", "nginx:alpine");
    assert!(t.contains("project: myapp"));
    assert!(t.contains("name: myapp"));
    assert!(t.contains("image: nginx:alpine"));
}

#[test]
fn template_has_commented_sections() {
    let t = generate_template("myapp", "api", "node:20");
    assert!(t.contains("# ports:"));
    assert!(t.contains("# env:"));
    assert!(t.contains("# network:"));
    assert!(t.contains("# healthcheck:"));
    assert!(t.contains("# volumes:"));
}

#[test]
fn template_is_valid_yaml_for_uncommented_lines() {
    let t = generate_template("test", "api", "nginx:latest");
    let uncommented: String = t
        .lines()
        .filter(|l| !l.trim_start().starts_with('#') && !l.is_empty())
        .collect::<Vec<_>>()
        .join("\n");
    let value: serde_yaml_ng::Value = serde_yaml_ng::from_str(&uncommented).unwrap();
    assert_eq!(value["project"], serde_yaml_ng::Value::String("test".into()));
}

#[test]
fn template_starts_with_header_and_names_domain() {
    let t = generate_template("p", "api", "img");
    assert!(t.starts_with("# Helyos deployment spec — api\n# Docs: https://github.com/helyos-labs/helyos\n\nproject: p\n"));
    assert!(t.contains("#   domain: api.example.com\n"));
    assert!(t.ends_with("# restart: always  # always | on_failure | never\n"));
}

#[test]
fn init_defaults_image_and_names() {
    let (p, d, i) = init_names("web", None);
    assert_eq!((p.as_str(), d.as_str(), i.as_str()), ("web", "web", "nginx:alpine"));
    let (_, _, i) = init_names("web", Some("redis:7"));
    assert_eq!(i, "redis:7");
    assert_eq!(spec_file("web"), "web/app.yaml");
}
