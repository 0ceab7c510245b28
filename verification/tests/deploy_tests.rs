use helyos_cli::deploy::{
    image_step, is_terminal_failure, observe_pods, pods_of_deployment, ready_timing, render_deploy_panel, timed_out,
    DeployOutcome, DeployStep, PodPhase, PodRecord,
};

fn pod(name: &str, deployment: &str, phase: PodPhase) -> PodRecord {
    PodRecord { name: name.to_string(), deployment: deployment.to_string(), phase }
}

#[test]
fn pods_are_filtered_by_deployment() {
    let pods = vec![pod("a-1", "a", PodPhase::Running), pod("b-1", "b", PodPhase::Running), pod("a-2", "a", PodPhase::Other)];
    let mine = pods_of_deployment(&pods, "a");
    assert_eq!(mine.len(), 2);
    assert_eq!(mine[0].name, "a-1");
    assert_eq!(mine[1].name, "a-2");
}

#[test]
fn failures_that_do_not_recover() {
    assert!(is_terminal_failure(PodPhase::Failed));
    assert!(is_terminal_failure(PodPhase::CrashLoopBackoff));
    assert!(!is_terminal_failure(PodPhase::Restarting));
    assert!(!is_terminal_failure(PodPhase::Running));
}

#[test]
fn running_pods_add_steps_once() {
    console::set_colors_enabled(false);
    let mut steps: Vec<DeployStep> = vec![image_step("nginx:latest")];
    assert_eq!(steps[0].detail, "nginx:latest pulled");
    let pods = vec![pod("web-1", "web", PodPhase::Running), pod("web-2", "web", PodPhase::Other)];
    assert_eq!(observe_pods(&mut steps, &pods, 2), DeployOutcome::Waiting);
    assert_eq!(steps.len(), 2);
    assert_eq!(steps[1].label, "Pod");
    assert_eq!(steps[1].detail, "web-1 running");
    let pods = vec![pod("web-1", "web", PodPhase::Running), pod("web-2", "web", PodPhase::Running)];
    assert_eq!(observe_pods(&mut steps, &pods, 2), DeployOutcome::Ready(2));
    assert_eq!(steps.len(), 3);
    assert_eq!(steps[2].detail, "web-2 running");
}

#[test]
fn a_failed_pod_fails_the_deployment() {
    let mut steps: Vec<DeployStep> = Vec::new();
    let pods = vec![pod("web-1", "web", PodPhase::CrashLoopBackoff), pod("web-2", "web", PodPhase::Running)];
    assert_eq!(observe_pods(&mut steps, &pods, 2), DeployOutcome::Failed);
    assert_eq!(steps.len(), 1);
    let mut steps: Vec<DeployStep> = Vec::new();
    assert_eq!(observe_pods(&mut steps, &pods, 1), DeployOutcome::Ready(1));
}

#[test]
fn deadline_and_timing_text() {
    assert!(!timed_out(60_000_000_000, 60));
    assert!(timed_out(60_000_000_001, 60));
    assert_eq!(ready_timing(2, 2, "3.4s"), "2/2 pods ready · 3.4s");
}

#[test]
fn deploy_panel_shows_steps_and_footer() {
    let steps = vec![DeployStep { icon: "✓".into(), label: "Image".into(), detail: "nginx pulled".into() }];
    let out = render_deploy_panel("web", &steps, "● Deployed", "1/1 pods ready · 1.0s", false).render_to_string_with_width(60);
    let out = console::strip_ansi_codes(&out).to_string();
    assert!(out.contains("◎ Deploying web"));
    assert!(out.contains(" ✓ Image  nginx pulled"));
    assert!(out.contains("● Deployed"));
    assert!(out.contains("1/1 pods ready · 1.0s"));
}
