use helyos_cli::cni::{cni_arch, cni_archive_name, cni_download_url, missing_plugins, missing_warning, sort_names};

#[test]
fn archive_for_architecture() {
    assert_eq!(cni_arch("x86_64"), Some("amd64"));
    assert_eq!(cni_arch("aarch64"), Some("arm64"));
    assert_eq!(cni_arch("riscv64"), None);
    let f = cni_archive_name("amd64", "1.4.0");
    assert_eq!(f, "cni-plugins-linux-amd64-v1.4.0.tgz");
    assert_eq!(
        cni_download_url("1.4.0", &f),
        "https://github.com/containernetworking/plugins/releases/download/v1.4.0/cni-plugins-linux-amd64-v1.4.0.tgz"
    );
}

#[test]
fn installed_names_are_sorted() {
    let names = vec!["loopback".to_string(), "bridge".to_string(), "host-local".to_string(), "Zeta".to_string(), "bridge".to_string()];
    let sorted = sort_names(&names);
    assert_eq!(sorted, vec!["Zeta", "bridge", "bridge", "host-local", "loopback"]);
}

#[test]
fn missing_required_plugins_are_reported() {
    let installed = vec!["bridge".to_string(), "portmap".to_string()];
    let missing = missing_plugins(&installed);
    assert_eq!(missing, vec!["loopback", "host-local"]);
    assert_eq!(missing_warning(&missing).unwrap(), "\nWarning: missing required plugins: loopback, host-local");
    let all = vec!["host-local".to_string(), "loopback".to_string(), "bridge".to_string()];
    assert!(missing_plugins(&all).is_empty());
    assert!(missing_warning(&missing_plugins(&all)).is_none());
}
