//! `helyos status`: the cluster summary.
use vstd::prelude::*;
use crate::deploy::PodPhase;
use crate::panel::{str_pairs_view, titled, ContentView, Panel, PanelView};
use crate::style::{icon, icon_spec, painted, status_code, status_dot, status_dot_text};
use crate::text::{concat2, dec, dec_str};

verus! {

/// The states of a deployment that the summary counts.
#[derive(Clone, Copy, Debug, PartialEq, Eq, Structural)]
pub enum DeploymentPhase {
    Running,
    Stopped,
    /// Any other state.
    Other,
}

/// How many deployments are in state `p`.
pub open spec fn deployments_in(s: Seq<DeploymentPhase>, p: DeploymentPhase) -> nat
    decreases s.len(),
{
    if s.len() == 0 {
        0
    } else {
        deployments_in(s.drop_last(), p) + if s.last() == p {
            1nat
        } else {
            0nat
        }
    }
}

/// How many pods are in state `p`.
pub open spec fn pods_in(s: Seq<PodPhase>, p: PodPhase) -> nat
    decreases s.len(),
{
    if s.len() == 0 {
        0
    } else {
        pods_in(s.drop_last(), p) + if s.last() == p {
            1nat
        } else {
            0nat
        }
    }
}

/// The counts the summary shows.
pub struct StatusCounts {
    pub deployments_running: usize,
    pub deployments_stopped: usize,
    pub pods_running: usize,
    pub pods_restarting: usize,
}

fn count_deployments(s: &[DeploymentPhase], p: DeploymentPhase) -> (n: usize)
    ensures
        n == deployments_in(s@, p),
{
    let mut n: usize = 0;
    let mut i: usize = 0;
    while i < s.len()
        invariant
            i <= s.len(),
            n <= i,
            n == deployments_in(s@.take(i as int), p),
        decreases s.len() - i,
    {
        proof {
            crate::panel::lemma_lines_take(s@, i as int);
        }
        if s[i] == p {
            n = n + 1;
        }
        i += 1;
    }
    assert(s@.take(s.len() as int) =~= s@);
    n
}

fn count_pods(s: &[PodPhase], p: PodPhase) -> (n: usize)
    ensures
        n == pods_in(s@, p),
{
    let mut n: usize = 0;
    let mut i: usize = 0;
    while i < s.len()
        invariant
            i <= s.len(),
            n <= i,
            n == pods_in(s@.take(i as int), p),
        decreases s.len() - i,
    {
        proof {
            crate::panel::lemma_lines_take(s@, i as int);
        }
        if s[i] == p {
            n = n + 1;
        }
        i += 1;
    }
    assert(s@.take(s.len() as int) =~= s@);
    n
}

/// Count the running and stopped deployments and the running and
/// restarting pods.
pub fn status_counts(deployments: &[DeploymentPhase], pods: &[PodPhase]) -> (c: StatusCounts)
    ensures
        c.deployments_running == deployments_in(deployments@, DeploymentPhase::Running),
        c.deployments_stopped == deployments_in(deployments@, DeploymentPhase::Stopped),
        c.pods_running == pods_in(pods@, PodPhase::Running),
        c.pods_restarting == pods_in(pods@, PodPhase::Restarting),
{
    StatusCounts {
        deployments_running: count_deployments(deployments, DeploymentPhase::Running),
        deployments_stopped: count_deployments(deployments, DeploymentPhase::Stopped),
        pods_running: count_pods(pods, PodPhase::Running),
        pods_restarting: count_pods(pods, PodPhase::Restarting),
    }
}

/// The summary's lines: the mode, a running status dot, and the counts.
pub open spec fn status_lines(projects: usize, c: StatusCounts, dot: Seq<char>) -> Seq<(Seq<char>, Seq<char>)> {
    seq![
        ("Mode"@, "single-node"@),
        ("Status"@, dot),
        ("Projects"@, dec(projects as nat)),
        ("Deployments"@, dec(c.deployments_running as nat) + " running · "@ + dec(c.deployments_stopped as nat) + " stopped"@),
        ("Pods"@, dec(c.pods_running as nat) + " running · "@ + dec(c.pods_restarting as nat) + " restarting"@),
    ]
}

/// The cluster summary panel.
pub open spec fn status_panel_view(projects: usize, c: StatusCounts, dot: Seq<char>, nerd: bool) -> PanelView {
    titled(icon_spec("cluster"@, nerd) + " Cluster Status"@).with_content(ContentView::Kv(status_lines(projects, c, dot)))
}

/// The panel that `helyos status` shows.
pub fn cluster_status_panel(projects: usize, counts: &StatusCounts, nerd: bool) -> (p: Panel)
    ensures
        exists|dot: Seq<char>|
            #[trigger] painted(Some(status_code("running"@)), status_dot_text("running"@), dot) && p@
                == status_panel_view(projects, *counts, dot, nerd),
{
    let dot = status_dot("running");
    let projects_text = dec_str(projects as u128);
    let mut deployments = concat2(dec_str(counts.deployments_running as u128).as_str(), " running · ");
    deployments.append(dec_str(counts.deployments_stopped as u128).as_str());
    deployments.append(" stopped");
    let mut pods = concat2(dec_str(counts.pods_running as u128).as_str(), " running · ");
    pods.append(dec_str(counts.pods_restarting as u128).as_str());
    pods.append(" restarting");
    let pairs: [(&str, &str); 5] = [
        ("Mode", "single-node"),
        ("Status", dot.as_str()),
        ("Projects", projects_text.as_str()),
        ("Deployments", deployments.as_str()),
        ("Pods", pods.as_str()),
    ];
    let title = concat2(icon("cluster", nerd).as_str(), " Cluster Status");
    let p = Panel::new(title.as_str()).kv(&pairs);
    assert(str_pairs_view(pairs@) =~= status_lines(projects, *counts, dot@));
    assert(painted(Some(status_code("running"@)), status_dot_text("running"@), dot@));
    p
}

} // verus!
