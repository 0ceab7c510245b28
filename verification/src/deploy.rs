//! Following a deployment until its pods run: the steps shown, when the
//! deployment counts as ready or failed, and the panel that reports it.
use vstd::prelude::*;
use crate::panel::{str_triples_view, titled, ContentView, Panel, PanelView};
use crate::style::{icon, icon_spec, paint, painted, GREEN};
use crate::text::{concat2, concat3, contains, contains_str, dec, dec_str, owned};

verus! {

/// The states of a pod that the CLI tells apart.
#[derive(Clone, Copy, Debug, PartialEq, Eq, Structural)]
pub enum PodPhase {
    Running,
    Restarting,
    Failed,
    CrashLoopBackoff,
    /// Any other state (pending, creating, stopping, ...).
    Other,
}

/// A pod as the CLI reads it: its container name, its deployment and state.
pub struct PodRecord {
    pub name: String,
    pub deployment: String,
    pub phase: PodPhase,
}

/// The model of a pod.
pub type PodView = (Seq<char>, Seq<char>, PodPhase);

pub open spec fn pods_view(v: Seq<PodRecord>) -> Seq<PodView> {
    v.map_values(|p: PodRecord| (p.name@, p.deployment@, p.phase))
}

/// A pod that has failed for good.
pub open spec fn terminal(phase: PodPhase) -> bool {
    phase == PodPhase::Failed || phase == PodPhase::CrashLoopBackoff
}

/// Whether a pod's state is a failure that will not recover by itself.
pub fn is_terminal_failure(phase: PodPhase) -> (b: bool)
    ensures
        b == terminal(phase),
{
    phase == PodPhase::Failed || phase == PodPhase::CrashLoopBackoff
}

/// The pods among `pods` that belong to deployment `name`, in order.
pub open spec fn of_deployment(pods: Seq<PodView>, name: Seq<char>) -> Seq<PodView> {
    pods.filter(|p: PodView| p.1 == name)
}

fn copy_pod(p: &PodRecord) -> (q: PodRecord)
    ensures
        q.name@ == p.name@,
        q.deployment@ == p.deployment@,
        q.phase == p.phase,
{
    PodRecord { name: owned(p.name.as_str()), deployment: owned(p.deployment.as_str()), phase: p.phase }
}

/// The pods of one deployment.
pub fn pods_of_deployment(pods: &Vec<PodRecord>, name: &str) -> (r: Vec<PodRecord>)
    ensures
        pods_view(r@) == of_deployment(pods_view(pods@), name@),
{
    let ghost pv = pods_view(pods@);
    let mut r: Vec<PodRecord> = Vec::new();
    let mut i: usize = 0;
    while i < pods.len()
        invariant
            pv == pods_view(pods@),
            i <= pods.len(),
            pods_view(r@) == of_deployment(pv.take(i as int), name@),
        decreases pods.len() - i,
    {
        proof {
            crate::panel::lemma_lines_take(pv, i as int);
            reveal_with_fuel(Seq::<_>::filter, 1);
        }
        let ghost before = r@;
        if crate::text::eq_str(pods[i].deployment.as_str(), name) {
            r.push(copy_pod(&pods[i]));
            assert(pods_view(r@) =~= pods_view(before).push(pv[i as int]));
        } else {
            assert(pods_view(r@) =~= pods_view(before));
        }
        i += 1;
    }
    assert(pv.take(pods.len() as int) =~= pv);
    r
}

/// The number of running pods.
pub open spec fn running_count(pods: Seq<PodView>) -> nat
    decreases pods.len(),
{
    if pods.len() == 0 {
        0
    } else {
        running_count(pods.drop_last()) + if pods.last().2 == PodPhase::Running {
            1nat
        } else {
            0nat
        }
    }
}

/// Some pod has failed for good.
pub open spec fn any_terminal(pods: Seq<PodView>) -> bool {
    exists|i: int| 0 <= i < pods.len() && terminal(#[trigger] pods[i].2)
}

// ---------------------------------------------------------------------------
// Steps
// ---------------------------------------------------------------------------

/// One line of the deploy panel: an icon, a label and a detail.
pub struct DeployStep {
    pub icon: String,
    pub label: String,
    pub detail: String,
}

pub type StepView = (Seq<char>, Seq<char>, Seq<char>);

pub open spec fn steps_view(v: Seq<DeployStep>) -> Seq<StepView> {
    v.map_values(|s: DeployStep| (s.icon@, s.label@, s.detail@))
}

/// A step that a pod is running: a green check, `Pod`, the pod's name and a
/// green `running`.
pub open spec fn is_pod_step(s: StepView, name: Seq<char>) -> bool {
    &&& painted(Some(GREEN), seq!['✓'], s.0)
    &&& s.1 == "Pod"@
    &&& exists|out: Seq<char>| #[trigger] painted(Some(GREEN), "running"@, out) && s.2 == name + seq![' '] + out
}

/// Some step already mentions the pod.
pub open spec fn mentioned(steps: Seq<StepView>, name: Seq<char>) -> bool {
    exists|i: int| 0 <= i < steps.len() && contains(#[trigger] steps[i].2, name)
}

/// `after` is `before` with a pod step added, in order, for each pod of
/// `pods` that runs and that no step mentions yet.
pub open spec fn adds_pod_steps(before: Seq<StepView>, pods: Seq<PodView>, after: Seq<StepView>) -> bool
    decreases pods.len(),
{
    if pods.len() == 0 {
        after == before
    } else {
        let p = pods.last();
        let fresh = p.2 == PodPhase::Running;
        ||| (!(fresh && !mentioned(after, p.0)) && adds_pod_steps(before, pods.drop_last(), after))
        ||| (after.len() > 0 && fresh && !mentioned(after.drop_last(), p.0) && is_pod_step(after.last(), p.0)
            && adds_pod_steps(before, pods.drop_last(), after.drop_last()))
    }
}

/// The first step: the image has been pulled.
pub fn image_step(image: &str) -> (s: DeployStep)
    ensures
        painted(Some(GREEN), seq!['✓'], s.icon@),
        s.label@ == "Image"@,
        s.detail@ == image@ + " pulled"@,
{
    proof {
        reveal_strlit("✓");
        assert("✓"@ =~= seq!['✓']);
    }
    DeployStep { icon: paint(Some(GREEN), "✓"), label: owned("Image"), detail: concat2(image, " pulled") }
}

fn mentions(steps: &Vec<DeployStep>, name: &str) -> (b: bool)
    ensures
        b == mentioned(steps_view(steps@), name@),
{
    let ghost sv = steps_view(steps@);
    let mut i: usize = 0;
    while i < steps.len()
        invariant
            sv == steps_view(steps@),
            i <= steps.len(),
            forall|k: int| 0 <= k < i ==> !contains(#[trigger] sv[k].2, name@),
        decreases steps.len() - i,
    {
        if contains_str(steps[i].detail.as_str(), name) {
            assert(contains(sv[i as int].2, name@));
            return true;
        }
        i += 1;
    }
    false
}

/// How a look at the pods ends.
#[derive(Debug, PartialEq, Eq, Structural)]
pub enum DeployOutcome {
    /// Enough pods run; the number running.
    Ready(u32),
    /// Not enough run and some pod has failed for good.
    Failed,
    /// Keep waiting.
    Waiting,
}

/// What a look at the pods shows: ready when the running pods (counted as a
/// `u32`) reach the replicas, else failed when a pod failed for good, else
/// waiting.
pub open spec fn outcome_of(pods: Seq<PodView>, replicas: u32) -> DeployOutcome {
    let running = running_count(pods) as u32;
    if running >= replicas {
        DeployOutcome::Ready(running)
    } else if any_terminal(pods) {
        DeployOutcome::Failed
    } else {
        DeployOutcome::Waiting
    }
}

/// Take in the deployment's pods: add a step for each newly running pod and
/// say whether the deployment is ready, failed, or still coming up.
pub fn observe_pods(steps: &mut Vec<DeployStep>, pods: &Vec<PodRecord>, replicas: u32) -> (o: DeployOutcome)
    ensures
        adds_pod_steps(steps_view(old(steps)@), pods_view(pods@), steps_view(final(steps)@)),
        o == outcome_of(pods_view(pods@), replicas),
{
    let ghost pv = pods_view(pods@);
    let ghost start = steps_view(steps@);
    let mut running: usize = 0;
    let mut failed = false;
    let mut i: usize = 0;
    while i < pods.len()
        invariant
            pv == pods_view(pods@),
            i <= pods.len(),
            running <= i,
            running == running_count(pv.take(i as int)),
            failed == any_terminal(pv.take(i as int)),
            adds_pod_steps(start, pv.take(i as int), steps_view(steps@)),
        decreases pods.len() - i,
    {
        proof {
            crate::panel::lemma_lines_take(pv, i as int);
            reveal_strlit("✓");
            assert("✓"@ =~= seq!['✓']);
            reveal_strlit(" ");
            assert(" "@ =~= seq![' ']);
        }
        let pod = &pods[i];
        let already = mentions(steps, pod.name.as_str());
        let ghost mid = steps_view(steps@);
        if pod.phase == PodPhase::Running && !already {
            let run = paint(Some(GREEN), "running");
            let detail = concat3(pod.name.as_str(), " ", run.as_str());
            let step = DeployStep { icon: paint(Some(GREEN), "✓"), label: owned("Pod"), detail };
            steps.push(step);
            proof {
                assert(painted(Some(GREEN), "running"@, run@));
                assert(steps_view(steps@).last().2 == pv[i as int].0 + seq![' '] + run@);
                assert(steps_view(steps@).drop_last() =~= mid);
                assert(is_pod_step(steps_view(steps@).last(), pv[i as int].0));
            }
        }
        if pod.phase == PodPhase::Running {
            running = running + 1;
        }
        if is_terminal_failure(pod.phase) {
            failed = true;
        }
        proof {
            let t = pv.take(i + 1);
            assert(t.last() == pv[i as int]);
            if failed {
                if terminal(pv[i as int].2) {
                    assert(terminal(t[i as int].2));
                } else {
                    let w = choose|k: int| 0 <= k < i && terminal(pv.take(i as int)[k].2);
                    assert(terminal(t[w].2));
                }
            } else {
                assert forall|k: int| 0 <= k < t.len() implies !terminal(#[trigger] t[k].2) by {
                    if k < i {
                        assert(t[k] == pv.take(i as int)[k]);
                    }
                }
            }
        }
        i += 1;
    }
    assert(pv.take(pods.len() as int) =~= pv);
    let count = running as u32;
    if count >= replicas {
        DeployOutcome::Ready(count)
    } else if failed {
        DeployOutcome::Failed
    } else {
        DeployOutcome::Waiting
    }
}

/// The deadline has passed: more than `timeout_secs` seconds went by.
pub fn timed_out(elapsed_nanos: u128, timeout_secs: u64) -> (b: bool)
    ensures
        b == (elapsed_nanos > timeout_secs * 1_000_000_000),
{
    elapsed_nanos > timeout_secs as u128 * 1_000_000_000
}

/// The footer text of a ready deployment: `{running}/{replicas} pods ready · {elapsed}`.
pub fn ready_timing(running: u32, replicas: u32, elapsed: &str) -> (r: String)
    ensures
        r@ == dec(running as nat) + seq!['/'] + dec(replicas as nat) + " pods ready · "@ + elapsed@,
{
    proof {
        reveal_strlit("/");
        assert("/"@ =~= seq!['/']);
    }
    let mut r = concat3(dec_str(running as u128).as_str(), "/", dec_str(replicas as u128).as_str());
    r.append(" pods ready · ");
    r.append(elapsed);
    r
}

// ---------------------------------------------------------------------------
// The panel
// ---------------------------------------------------------------------------

/// The deploy panel: `◎ Deploying` (or the Nerd Font glyph), the
/// deployment's name, one line per step, and the status and timing footer.
pub open spec fn deploy_panel_view(name: Seq<char>, steps: Seq<StepView>, status: Seq<char>, timing: Seq<char>, nerd: bool) -> PanelView {
    titled(icon_spec("deploy"@, nerd) + " Deploying"@).with_subtitle(name).with_content(ContentView::Steps(steps))
        .with_footer_left(status).with_footer_right(timing)
}

/// The panel that reports a deployment's progress.
pub fn render_deploy_panel(name: &str, steps: &[DeployStep], status: &str, timing: &str, nerd: bool) -> (p: Panel)
    ensures
        p@ == deploy_panel_view(name@, steps@.map_values(|s: DeployStep| (s.icon@, s.label@, s.detail@)), status@, timing@, nerd),
{
    let mut tuples: Vec<(&str, &str, &str)> = Vec::new();
    let mut i: usize = 0;
    while i < steps.len()
        invariant
            i <= steps.len(),
            tuples.len() == i,
            forall|k: int|
                0 <= k < i ==> (#[trigger] tuples@[k]).0@ == steps@[k].icon@ && tuples@[k].1@ == steps@[k].label@
                    && tuples@[k].2@ == steps@[k].detail@,
        decreases steps.len() - i,
    {
        tuples.push((steps[i].icon.as_str(), steps[i].label.as_str(), steps[i].detail.as_str()));
        i += 1;
    }
    assert(str_triples_view(tuples@) =~= steps@.map_values(|s: DeployStep| (s.icon@, s.label@, s.detail@)));
    let title = concat2(icon("deploy", nerd).as_str(), " Deploying");
    Panel::new(title.as_str()).subtitle(name).steps(tuples.as_slice()).footer_left(status).footer_right(timing)
}

} // verus!
