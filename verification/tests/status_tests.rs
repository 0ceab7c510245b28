use helyos_cli::deploy::PodPhase;
use helyos_cli::status::{cluster_status_panel, status_counts, DeploymentPhase};

#[test]
fn counts_by_state() {
    let c = status_counts(
        &[DeploymentPhase::Running, DeploymentPhase::Stopped, DeploymentPhase::Running, DeploymentPhase::Other],
        &[PodPhase::Running, PodPhase::Restarting, PodPhase::Failed, PodPhase::Running, PodPhase::Running],
    );
    assert_eq!(c.deployments_running, 2);
    assert_eq!(c.deployments_stopped, 1);
    assert_eq!(c.pods_running, 3);
    assert_eq!(c.pods_restarting, 1);
}

#[test]
fn status_panel_lists_counts() {
    let c = status_counts(&[DeploymentPhase::Running], &[PodPhase::Running, PodPhase::Restarting]);
    let out = console::strip_ansi_codes(&cluster_status_panel(4, &c, false).render_to_string_with_width(60)).to_string();
    assert!(out.contains("⊞ Cluster Status"));
    assert!(out.contains("single-node"));
    assert!(out.contains("● running"));
    assert!(out.contains("1 running · 0 stopped"));
    assert!(out.contains("1 running · 1 restarting"));
    assert!(out.contains(&format!("{:>16}  4", "Projects")));
}
