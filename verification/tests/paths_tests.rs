use helyos_cli::paths::{
    deployment_path, deployments_path, drain_path, logs_path, node_path, pods_path, project_action_path, project_path,
    route_path, routes_path, scale_path, secret_path, secrets_path, stop_path, token_path,
};

#[test]
fn pod_and_deployment_lists_filter_by_encoded_project() {
    assert_eq!(pods_path(None), "/api/v1/pods");
    assert_eq!(pods_path(Some("web")), "/api/v1/pods?project=web");
    assert_eq!(pods_path(Some("a b&c")), "/api/v1/pods?project=a%20b%26c");
    assert_eq!(deployments_path(Some("é")), "/api/v1/deployments?project=%C3%A9");
    assert_eq!(deployments_path(None), "/api/v1/deployments");
}

#[test]
fn deployment_paths_default_the_project() {
    assert_eq!(deployment_path(None, "api"), "/api/v1/projects/default/deployments/api");
    assert_eq!(stop_path(Some("web"), "a/b"), "/api/v1/projects/web/deployments/a%2Fb/stop");
    assert_eq!(logs_path(None, "api", Some(50)), "/api/v1/projects/default/deployments/api/logs?tail=50");
    assert_eq!(logs_path(Some("p"), "api", None), "/api/v1/projects/p/deployments/api/logs");
    assert_eq!(scale_path(None, "api"), "/api/v1/projects/default/deployments/api/scale");
}

#[test]
fn node_project_and_token_paths() {
    assert_eq!(node_path("n 1"), "/api/v1/nodes/n%201");
    assert_eq!(drain_path("n1"), "/api/v1/nodes/n1/drain");
    assert_eq!(project_path("web"), "/api/v1/projects/web");
    assert_eq!(project_action_path("web", "suspend"), "/api/v1/projects/web/suspend");
    assert_eq!(token_path("ci token"), "/api/v1/tokens/ci%20token");
    assert_eq!(secrets_path("web"), "/api/v1/projects/web/secrets");
    assert_eq!(secret_path("web", "DB"), "/api/v1/projects/web/secrets/DB");
    assert_eq!(routes_path(Some("web")), "/api/v1/routes?project=web");
    assert_eq!(routes_path(None), "/api/v1/routes");
    assert_eq!(route_path("a.example.com"), "/api/v1/routes/a.example.com");
}
