//! The course of a session, from the start of the compositor to its end, and what is started in
//! between.

use vstd::pervasive::unreached;
use vstd::prelude::*;

use crate::comp::{create_privileged_socket, exit_request, on_compositor_exit};
use crate::component::{
    extra_env_of, extra_fds_of, extra_streams_of, keys_of, launched_env, start_component,
    ComponentLaunch, ExtraFd, PrivilegedSocket,
};
use crate::env::{with_fd, with_var, without_key, Pair};
use crate::notifications::{
    notifications_process, process_of, FdKeys, NotificationsLaunch, SocketEnd,
};
use crate::process::Launch;
use crate::service::SessionRequest;
use crate::systemd::{set_systemd_environment, CommandLine, EnvVar};
use crate::text::{decimal, same};

verus! {

/// How a session ended.
#[derive(Debug, Clone, Copy, PartialEq, Eq, Structural)]
pub enum Status {
    Restarted,
    Exited,
}

/// The number of components that every session starts.
pub const COMPONENTS: usize = 8;

/// One step of a session. The steps behind `Wait` carry how the session ends.
#[derive(Debug, Clone, Copy, PartialEq, Eq, Structural)]
pub enum Step {
    /// Launch the compositor.
    RunCompositor,
    /// Wait for the environment that the compositor sends when it is ready.
    AwaitEnvironment,
    /// Set the type of the session, here and for the services of the user.
    ExportSessionType,
    /// Take over variables of the service manager.
    SyncEnvironment,
    /// Start the settings daemon.
    StartSettingsDaemon,
    /// Start the target of the session.
    StartTarget,
    /// Start to follow the screen reader's setting.
    StartAccessibility,
    /// Create the socket pair of the notification daemon and the panel.
    CreateNotificationSocket,
    /// Start the notification daemon.
    StartNotifications,
    /// Start the panel.
    StartPanel,
    /// Start the component with this index.
    StartComponent(usize),
    /// See which desktop the environment names.
    CheckDesktop,
    /// Start the desktop portal.
    StartPortal,
    /// Start the programs that are started with every session.
    RunAutostart,
    /// Wait for a request or a signal.
    Wait,
    /// Stop to serve the compositor.
    StopCompositor(Status),
    /// Stop the settings daemon.
    StopSettingsDaemon(Status),
    /// Wait for the settings daemon to exit.
    AwaitSettingsExit(Status),
    /// Leave the other processes time to end.
    Linger(Status),
    /// Stop the target of the session.
    StopTarget(Status),
    /// The session is over.
    Finish(Status),
    /// The session could not be started.
    Fail,
    /// Stop the target of the session while a panic is under way.
    StopTargetInPanic,
    /// Go on with a panic, which ends the program.
    Panic,
}

/// How a step came out.
#[derive(Debug, Clone, Copy, PartialEq, Eq, Structural)]
pub enum Outcome {
    Done,
    Failed,
    /// The step panicked.
    Panicked,
    /// Whether the environment names this desktop.
    Desktop(bool),
    /// The session is to end in this way.
    Ended(Status),
}

/// The step that follows once the portal is seen to: the service manager starts the programs of
/// the user itself.
pub open spec fn after_portal(systemd_used: bool) -> Step {
    if systemd_used {
        Step::Wait
    } else {
        Step::RunAutostart
    }
}

/// Whether nothing follows a step.
pub open spec fn is_last(step: Step) -> bool {
    step is Finish || step == Step::Fail || step == Step::Panic
}

/// Whether, at a step, the target of the session is started and its stop has not begun.
pub open spec fn target_runs(step: Step) -> bool {
    match step {
        Step::RunCompositor => false,
        Step::AwaitEnvironment => false,
        Step::ExportSessionType => false,
        Step::SyncEnvironment => false,
        Step::StartSettingsDaemon => false,
        Step::StartTarget => false,
        Step::StopTarget(_) => false,
        Step::Finish(_) => false,
        Step::Fail => false,
        Step::StopTargetInPanic => false,
        Step::Panic => false,
        _ => true,
    }
}

/// The step that follows a step that panicked: a target that runs is stopped first.
pub open spec fn after_panic(step: Step) -> Option<Step> {
    if is_last(step) {
        None
    } else if target_runs(step) {
        Some(Step::StopTargetInPanic)
    } else {
        Some(Step::Panic)
    }
}

/// The step that follows a step with this outcome; none behind a last step, and none where a step
/// cannot come out so.
pub open spec fn following(systemd_used: bool, step: Step, outcome: Outcome) -> Option<Step> {
    match (step, outcome) {
        (Step::RunCompositor, Outcome::Done) => Some(Step::AwaitEnvironment),
        (Step::RunCompositor, Outcome::Failed) => Some(Step::Fail),
        (Step::AwaitEnvironment, Outcome::Done) => Some(Step::ExportSessionType),
        (Step::ExportSessionType, Outcome::Done) => if systemd_used {
            Some(Step::SyncEnvironment)
        } else {
            Some(Step::StartSettingsDaemon)
        },
        (Step::SyncEnvironment, Outcome::Done) => Some(Step::StartSettingsDaemon),
        (Step::SyncEnvironment, Outcome::Failed) => Some(Step::StartSettingsDaemon),
        (Step::StartSettingsDaemon, Outcome::Done) => Some(Step::StartTarget),
        (Step::StartTarget, Outcome::Done) => Some(Step::StartAccessibility),
        (Step::StartAccessibility, Outcome::Done) => Some(Step::CreateNotificationSocket),
        (Step::CreateNotificationSocket, Outcome::Done) => Some(Step::StartNotifications),
        (Step::StartNotifications, Outcome::Done) => Some(Step::StartPanel),
        (Step::StartPanel, Outcome::Done) => Some(Step::StartComponent(0)),
        (Step::StartComponent(i), Outcome::Done) => if i + 1 < COMPONENTS {
            Some(Step::StartComponent((i + 1) as usize))
        } else {
            Some(Step::CheckDesktop)
        },
        (Step::CheckDesktop, Outcome::Desktop(named)) => if named {
            Some(Step::StartPortal)
        } else {
            Some(after_portal(systemd_used))
        },
        (Step::StartPortal, Outcome::Done) => Some(after_portal(systemd_used)),
        (Step::RunAutostart, Outcome::Done) => Some(Step::Wait),
        (Step::Wait, Outcome::Ended(status)) => Some(Step::StopCompositor(status)),
        (Step::StopCompositor(status), Outcome::Done) => Some(Step::StopSettingsDaemon(status)),
        (Step::StopSettingsDaemon(status), Outcome::Done) => Some(
            Step::AwaitSettingsExit(status),
        ),
        (Step::StopSettingsDaemon(status), Outcome::Failed) => Some(Step::Linger(status)),
        (Step::AwaitSettingsExit(status), Outcome::Done) => Some(Step::Linger(status)),
        (Step::AwaitSettingsExit(status), Outcome::Failed) => Some(Step::Linger(status)),
        (Step::Linger(status), Outcome::Done) => Some(Step::StopTarget(status)),
        (Step::StopTarget(status), Outcome::Done) => Some(Step::Finish(status)),
        (Step::StopTargetInPanic, Outcome::Done) => Some(Step::Panic),
        (_, Outcome::Panicked) => after_panic(step),
        _ => None,
    }
}

/// The first step of a session.
pub fn start() -> (r: Step)
    ensures
        r == Step::RunCompositor,
{
    Step::RunCompositor
}

/// The step that follows a step with this outcome.
pub fn next_step(systemd_used: bool, step: Step, outcome: Outcome) -> (r: Option<Step>)
    ensures
        r == following(systemd_used, step, outcome),
{
    let portal_done = if systemd_used {
        Step::Wait
    } else {
        Step::RunAutostart
    };
    match outcome {
        Outcome::Done => match step {
            Step::RunCompositor => Some(Step::AwaitEnvironment),
            Step::AwaitEnvironment => Some(Step::ExportSessionType),
            Step::ExportSessionType => if systemd_used {
                Some(Step::SyncEnvironment)
            } else {
                Some(Step::StartSettingsDaemon)
            },
            Step::SyncEnvironment => Some(Step::StartSettingsDaemon),
            Step::StartSettingsDaemon => Some(Step::StartTarget),
            Step::StartTarget => Some(Step::StartAccessibility),
            Step::StartAccessibility => Some(Step::CreateNotificationSocket),
            Step::CreateNotificationSocket => Some(Step::StartNotifications),
            Step::StartNotifications => Some(Step::StartPanel),
            Step::StartPanel => Some(Step::StartComponent(0)),
            Step::StartComponent(i) => if i < COMPONENTS - 1 {
                Some(Step::StartComponent(i + 1))
            } else {
                Some(Step::CheckDesktop)
            },
            Step::StartPortal => Some(portal_done),
            Step::RunAutostart => Some(Step::Wait),
            Step::StopCompositor(status) => Some(Step::StopSettingsDaemon(status)),
            Step::StopSettingsDaemon(status) => Some(Step::AwaitSettingsExit(status)),
            Step::AwaitSettingsExit(status) => Some(Step::Linger(status)),
            Step::Linger(status) => Some(Step::StopTarget(status)),
            Step::StopTarget(status) => Some(Step::Finish(status)),
            Step::StopTargetInPanic => Some(Step::Panic),
            _ => None,
        },
        Outcome::Failed => match step {
            Step::RunCompositor => Some(Step::Fail),
            Step::SyncEnvironment => Some(Step::StartSettingsDaemon),
            Step::StopSettingsDaemon(status) => Some(Step::Linger(status)),
            Step::AwaitSettingsExit(status) => Some(Step::Linger(status)),
            _ => None,
        },
        Outcome::Panicked => match step {
            Step::Finish(_) => None,
            Step::Fail => None,
            Step::Panic => None,
            Step::RunCompositor => Some(Step::Panic),
            Step::AwaitEnvironment => Some(Step::Panic),
            Step::ExportSessionType => Some(Step::Panic),
            Step::SyncEnvironment => Some(Step::Panic),
            Step::StartSettingsDaemon => Some(Step::Panic),
            Step::StartTarget => Some(Step::Panic),
            Step::StopTarget(_) => Some(Step::Panic),
            Step::StopTargetInPanic => Some(Step::Panic),
            _ => Some(Step::StopTargetInPanic),
        },
        Outcome::Desktop(named) => match step {
            Step::CheckDesktop => if named {
                Some(Step::StartPortal)
            } else {
                Some(portal_done)
            },
            _ => None,
        },
        Outcome::Ended(status) => match step {
            Step::Wait => Some(Step::StopCompositor(status)),
            _ => None,
        },
    }
}

/// Whether `t` can follow `s`.
pub open spec fn follows(systemd_used: bool, s: Step, t: Step) -> bool {
    exists|outcome: Outcome| #[trigger] following(systemd_used, s, outcome) == Some(t)
}

/// Whether `steps` is the course of a session up to some point.
pub open spec fn is_run(systemd_used: bool, steps: Seq<Step>) -> bool {
    &&& steps.len() > 0
    &&& steps[0] == Step::RunCompositor
    &&& forall|i: int|
        0 <= i < steps.len() - 1 ==> follows(systemd_used, #[trigger] steps[i], steps[i + 1])
}

/// How far a step is from the start.
pub open spec fn rank(step: Step) -> int {
    match step {
        Step::RunCompositor => 0,
        Step::Fail => 1,
        Step::AwaitEnvironment => 1,
        Step::ExportSessionType => 2,
        Step::SyncEnvironment => 3,
        Step::StartSettingsDaemon => 4,
        Step::StartTarget => 5,
        Step::StartAccessibility => 6,
        Step::CreateNotificationSocket => 7,
        Step::StartNotifications => 8,
        Step::StartPanel => 9,
        Step::StartComponent(i) => 10 + i,
        Step::CheckDesktop => 10 + COMPONENTS,
        Step::StartPortal => 11 + COMPONENTS,
        Step::RunAutostart => 12 + COMPONENTS,
        Step::Wait => 13 + COMPONENTS,
        Step::StopCompositor(_) => 14 + COMPONENTS,
        Step::StopSettingsDaemon(_) => 15 + COMPONENTS,
        Step::AwaitSettingsExit(_) => 16 + COMPONENTS,
        Step::Linger(_) => 17 + COMPONENTS,
        Step::StopTarget(_) => 18 + COMPONENTS,
        Step::Finish(_) => 19 + COMPONENTS,
        Step::StopTargetInPanic => 20 + COMPONENTS,
        Step::Panic => 21 + COMPONENTS,
    }
}

/// How the session ends, once that is known.
pub open spec fn ending(step: Step) -> Option<Status> {
    match step {
        Step::StopCompositor(status) => Some(status),
        Step::StopSettingsDaemon(status) => Some(status),
        Step::AwaitSettingsExit(status) => Some(status),
        Step::Linger(status) => Some(status),
        Step::StopTarget(status) => Some(status),
        Step::Finish(status) => Some(status),
        _ => None,
    }
}

/// Whether a panic is under way.
pub open spec fn panicking(step: Step) -> bool {
    step == Step::StopTargetInPanic || step == Step::Panic
}

proof fn lemma_follows_rank(systemd_used: bool, s: Step, t: Step)
    requires
        follows(systemd_used, s, t),
        s matches Step::StartComponent(i) ==> i < COMPONENTS,
    ensures
        t matches Step::StartComponent(i) ==> i < COMPONENTS,
        rank(s) < rank(t),
        panicking(s) ==> panicking(t),
        t == Step::StopTargetInPanic ==> target_runs(s),
        5 <= rank(t) <= 10 + COMPONENTS ==> rank(s) == rank(t) - 1,
        rank(t) > 10 + COMPONENTS && !panicking(t) ==> rank(s) >= 10 + COMPONENTS,
        rank(t) > 14 + COMPONENTS && !panicking(t) ==> ending(s) is Some && ending(t) == ending(s),
{
    let outcome = choose|outcome: Outcome| #[trigger]
        following(systemd_used, s, outcome) == Some(t);
    match outcome {
        Outcome::Done => {},
        Outcome::Failed => {},
        Outcome::Panicked => {},
        Outcome::Desktop(_) => {},
        Outcome::Ended(_) => {},
    }
}

/// Every step of a course names a component that exists, and has a rank that bounds its place.
proof fn lemma_places(systemd_used: bool, steps: Seq<Step>, k: int)
    requires
        is_run(systemd_used, steps),
        0 <= k < steps.len(),
    ensures
        steps[k] matches Step::StartComponent(i) ==> i < COMPONENTS,
        k <= rank(steps[k]) <= 21 + COMPONENTS,
        k > 0 ==> rank(steps[k - 1]) < rank(steps[k]),
    decreases k,
{
    if k > 0 {
        lemma_places(systemd_used, steps, k - 1);
        assert(follows(systemd_used, steps[k - 1], steps[k - 1 + 1]));
        lemma_follows_rank(systemd_used, steps[k - 1], steps[k]);
    }
}

proof fn lemma_ranks_grow(systemd_used: bool, steps: Seq<Step>, j: int, k: int)
    requires
        is_run(systemd_used, steps),
        0 <= j < k < steps.len(),
    ensures
        rank(steps[j]) < rank(steps[k]),
    decreases k,
{
    lemma_places(systemd_used, steps, k);
    if j < k - 1 {
        lemma_ranks_grow(systemd_used, steps, j, k - 1);
    }
}

/// A session ends: no course has more steps than there are ranks.
pub proof fn law_session_ends(systemd_used: bool, steps: Seq<Step>)
    requires
        is_run(systemd_used, steps),
    ensures
        steps.len() <= 22 + COMPONENTS,
{
    lemma_places(systemd_used, steps, steps.len() - 1);
}

/// No step of a course is repeated.
pub proof fn law_no_step_is_repeated(systemd_used: bool, steps: Seq<Step>, j: int, k: int)
    requires
        is_run(systemd_used, steps),
        0 <= j < k < steps.len(),
    ensures
        steps[j] != steps[k],
{
    lemma_ranks_grow(systemd_used, steps, j, k);
}

/// Every step but the last ones has a step that follows it.
pub proof fn law_no_step_is_stuck(systemd_used: bool, step: Step)
    requires
        !is_last(step),
    ensures
        exists|outcome: Outcome| #[trigger] following(systemd_used, step, outcome) is Some,
{
    let outcome = match step {
        Step::CheckDesktop => Outcome::Desktop(true),
        Step::Wait => Outcome::Ended(Status::Exited),
        _ => Outcome::Done,
    };
    assert(following(systemd_used, step, outcome) is Some);
}

/// The target of the session is started only after the compositor has sent its environment, the
/// session's variables are set, and the settings daemon is started.
pub proof fn law_target_starts_when_ready(systemd_used: bool, steps: Seq<Step>, k: int)
    requires
        is_run(systemd_used, steps),
        0 <= k < steps.len(),
        steps[k] == Step::StartTarget,
    ensures
        steps.take(k).contains(Step::RunCompositor),
        steps.take(k).contains(Step::AwaitEnvironment),
        steps.take(k).contains(Step::ExportSessionType),
        systemd_used ==> steps.take(k).contains(Step::SyncEnvironment),
        steps.take(k).contains(Step::StartSettingsDaemon),
{
    let before = steps.take(k);
    assert(follows(systemd_used, steps[k - 1], steps[k - 1 + 1]));
    assert(before[k - 1] == Step::StartSettingsDaemon);
    assert(follows(systemd_used, steps[k - 2], steps[k - 2 + 1]));
    if systemd_used {
        assert(before[k - 2] == Step::SyncEnvironment);
        assert(follows(systemd_used, steps[k - 3], steps[k - 3 + 1]));
        assert(before[k - 3] == Step::ExportSessionType);
        assert(follows(systemd_used, steps[k - 4], steps[k - 4 + 1]));
        assert(before[k - 4] == Step::AwaitEnvironment);
        assert(follows(systemd_used, steps[k - 5], steps[k - 5 + 1]));
        assert(before[k - 5] == Step::RunCompositor);
    } else {
        lemma_without_systemd(steps, k - 2);
        assert(before[k - 2] == Step::ExportSessionType);
        assert(follows(systemd_used, steps[k - 3], steps[k - 3 + 1]));
        assert(before[k - 3] == Step::AwaitEnvironment);
        assert(follows(systemd_used, steps[k - 4], steps[k - 4 + 1]));
        assert(before[k - 4] == Step::RunCompositor);
    }
}

proof fn lemma_without_systemd(steps: Seq<Step>, k: int)
    requires
        is_run(false, steps),
        0 <= k < steps.len(),
    ensures
        steps[k] != Step::SyncEnvironment,
{
    if k > 0 {
        assert(follows(false, steps[k - 1], steps[k - 1 + 1]));
    }
}

proof fn lemma_passes(systemd_used: bool, steps: Seq<Step>, k: int, r: int) -> (j: int)
    requires
        is_run(systemd_used, steps),
        0 <= k < steps.len(),
        4 <= r <= 10 + COMPONENTS,
        rank(steps[k]) >= r,
        !panicking(steps[k]),
    ensures
        0 <= j <= k,
        rank(steps[j]) == r,
    decreases k,
{
    if rank(steps[k]) == r {
        k
    } else {
        lemma_places(systemd_used, steps, k - 1);
        assert(follows(systemd_used, steps[k - 1], steps[k - 1 + 1]));
        lemma_follows_rank(systemd_used, steps[k - 1], steps[k]);
        lemma_passes(systemd_used, steps, k - 1, r)
    }
}

proof fn lemma_ending(systemd_used: bool, steps: Seq<Step>, k: int) -> (j: int)
    requires
        is_run(systemd_used, steps),
        0 <= k < steps.len(),
        ending(steps[k]) is Some,
    ensures
        0 < j <= k,
        steps[j - 1] == Step::Wait,
        steps[j] == Step::StopCompositor(ending(steps[k])->0),
    decreases k,
{
    lemma_places(systemd_used, steps, k - 1);
    assert(follows(systemd_used, steps[k - 1], steps[k - 1 + 1]));
    lemma_follows_rank(systemd_used, steps[k - 1], steps[k]);
    if steps[k] is StopCompositor {
        k
    } else {
        lemma_ending(systemd_used, steps, k - 1)
    }
}

/// A session that is over has started its target and stopped it as its last act, and it ends as
/// the request or signal that it waited for told it to.
pub proof fn law_finished_session_stopped_its_target(
    systemd_used: bool,
    steps: Seq<Step>,
    status: Status,
)
    requires
        is_run(systemd_used, steps),
        steps.last() == Step::Finish(status),
    ensures
        steps.contains(Step::StartTarget),
        steps.len() >= 2,
        steps[steps.len() - 2] == Step::StopTarget(status),
        exists|j: int|
            0 < j < steps.len() && steps[j - 1] == Step::Wait && #[trigger] steps[j]
                == Step::StopCompositor(status),
{
    let k = steps.len() - 1;
    let j = lemma_passes(systemd_used, steps, k, 5);
    lemma_places(systemd_used, steps, j);
    assert(steps[j] == Step::StartTarget);
    assert(follows(systemd_used, steps[k - 1], steps[k - 1 + 1]));
    let e = lemma_ending(systemd_used, steps, k);
    assert(steps[e] == Step::StopCompositor(status));
}

/// A target that was started is stopped, once and as the last act before the program goes on,
/// whether the session ends or panics.
pub proof fn law_started_target_is_stopped(systemd_used: bool, steps: Seq<Step>)
    requires
        is_run(systemd_used, steps),
        is_last(steps.last()),
        steps.contains(Step::StartAccessibility),
    ensures
        steps.contains(Step::StartTarget),
        steps.len() >= 2,
        steps[steps.len() - 2] is StopTarget || steps[steps.len() - 2] == Step::StopTargetInPanic,
        forall|k: int|
            0 <= k < steps.len() - 2 ==> !(#[trigger] steps[k] is StopTarget) && steps[k]
                != Step::StopTargetInPanic,
{
    assert forall|k: int| 0 <= k < steps.len() - 2 implies !(#[trigger] steps[k] is StopTarget)
        && steps[k] != Step::StopTargetInPanic by {
        assert(follows(systemd_used, steps[k], steps[k + 1]));
        assert(follows(systemd_used, steps[k + 1], steps[k + 1 + 1]));
    }
    let k = steps.index_of(Step::StartAccessibility);
    let before = steps.len() - 2;
    lemma_places(systemd_used, steps, k);
    assert(follows(systemd_used, steps[k - 1], steps[k - 1 + 1]));
    assert(steps[k - 1] == Step::StartTarget);
    assert(follows(systemd_used, steps[before], steps[before + 1]));
    if k < before {
        lemma_ranks_grow(systemd_used, steps, k, before);
    }
}

/// A target is stopped only after it was started.
pub proof fn law_only_started_target_is_stopped(systemd_used: bool, steps: Seq<Step>, k: int)
    requires
        is_run(systemd_used, steps),
        0 <= k < steps.len(),
        steps[k] is StopTarget || steps[k] == Step::StopTargetInPanic,
    ensures
        steps.take(k).contains(Step::StartTarget),
{
    lemma_places(systemd_used, steps, k - 1);
    assert(follows(systemd_used, steps[k - 1], steps[k - 1 + 1]));
    lemma_follows_rank(systemd_used, steps[k - 1], steps[k]);
    let j = lemma_passes(systemd_used, steps, k - 1, 5);
    lemma_places(systemd_used, steps, j);
    assert(steps.take(k)[j] == Step::StartTarget);
}

/// A session whose compositor could not be launched has done nothing else.
pub proof fn law_failed_session_started_nothing(systemd_used: bool, steps: Seq<Step>)
    requires
        is_run(systemd_used, steps),
        steps.last() == Step::Fail,
    ensures
        steps == seq![Step::RunCompositor, Step::Fail],
{
    let k = steps.len() - 1;
    lemma_places(systemd_used, steps, k);
    assert(follows(systemd_used, steps[k - 1], steps[k - 1 + 1]));
    assert(steps =~= seq![Step::RunCompositor, Step::Fail]);
}

proof fn lemma_rank_of_component(step: Step, i: usize)
    requires
        i < COMPONENTS,
        rank(step) == 10 + i,
        step matches Step::StartComponent(j) ==> j < COMPONENTS,
    ensures
        step == Step::StartComponent(i),
{
}

proof fn lemma_behind_component(systemd_used: bool, i: usize, t: Step)
    requires
        i + 1 < COMPONENTS,
        follows(systemd_used, Step::StartComponent(i), t),
        !panicking(t),
    ensures
        t == Step::StartComponent((i + 1) as usize),
{
}

/// A session that waits for requests has started every component, in order.
#[verifier::spinoff_prover]
pub proof fn law_waiting_session_started_all_components(
    systemd_used: bool,
    steps: Seq<Step>,
    i: usize,
) -> (j: int)
    requires
        is_run(systemd_used, steps),
        steps.last() == Step::Wait,
        i < COMPONENTS,
    ensures
        0 <= j < steps.len(),
        steps[j] == Step::StartComponent(i),
        i + 1 < COMPONENTS ==> steps[j + 1] == Step::StartComponent((i + 1) as usize),
{
    let last = steps.len() - 1;
    let j = lemma_passes(systemd_used, steps, last, 10 + i);
    lemma_places(systemd_used, steps, j);
    lemma_rank_of_component(steps[j], i);
    if i + 1 < COMPONENTS {
        assert(follows(systemd_used, steps[j], steps[j + 1]));
        if j + 1 < last {
            lemma_ranks_grow(systemd_used, steps, j + 1, last);
        }
        lemma_behind_component(systemd_used, i, steps[j + 1]);
    }
    j
}

/// What a waiting session has seen.
#[derive(Debug, Clone, Copy, PartialEq, Eq, Structural)]
pub enum WaitEvent {
    /// A request, or the end of the channel that brings them.
    Request(Option<SessionRequest>),
    /// A signal, or the end of the stream that brings them.
    Signal(Option<i32>),
}

/// `libc::SIGTERM`: the number of the signal that asks a process to terminate, fifteen.
#[verifier::external_body]
fn sigterm() -> (r: i32)
    ensures
        r == 15,
{
    libc::SIGTERM
}

/// `libc::SIGINT`: the number of the signal of an interrupt from the keyboard, two.
#[verifier::external_body]
fn sigint() -> (r: i32)
    ensures
        r == 2,
{
    libc::SIGINT
}

/// Whether a signal is one of those that the session waits for.
pub open spec fn terminates(signal: i32) -> bool {
    signal == 15 || signal == 2
}

/// The signals that the session waits for.
pub fn signals_to_watch() -> (r: Vec<i32>)
    ensures
        r@ == seq![15i32, 2i32],
{
    let mut signals: Vec<i32> = Vec::new();
    signals.push(sigterm());
    signals.push(sigint());
    signals
}

/// How a session ends that has seen this.
pub open spec fn wait_status(event: WaitEvent) -> Status {
    if event == WaitEvent::Request(Some(SessionRequest::Restart)) {
        Status::Restarted
    } else {
        Status::Exited
    }
}

/// How the session ends after what it has seen: only a request to restart restarts it.
pub fn on_wait(event: WaitEvent) -> (r: Status)
    requires
        event matches WaitEvent::Signal(Some(signal)) ==> terminates(signal),
    ensures
        r == wait_status(event),
{
    match event {
        WaitEvent::Request(Some(SessionRequest::Exit)) => Status::Exited,
        WaitEvent::Request(Some(SessionRequest::Restart)) => Status::Restarted,
        WaitEvent::Request(None) => Status::Exited,
        WaitEvent::Signal(Some(signal)) => {
            if signal == sigterm() || signal == sigint() {
                Status::Exited
            } else {
                unreached()
            }
        },
        WaitEvent::Signal(None) => Status::Exited,
    }
}

/// What the program does after a session.
#[derive(Debug, Clone, Copy, PartialEq, Eq, Structural)]
pub enum AfterSession {
    /// Exit.
    Leave,
    /// Drop the requests that are still queued and start the next session.
    StartAgain,
}

/// What follows a session with this status, or a failed one.
pub open spec fn afterwards(status: Option<Status>) -> AfterSession {
    if status == Some(Status::Exited) {
        AfterSession::Leave
    } else {
        AfterSession::StartAgain
    }
}

/// The program leaves when the compositor exits with code zero, and starts another session after
/// any other end of the compositor.
pub proof fn law_compositor_exit_decides(err_code: Option<i32>)
    ensures
        afterwards(
            Some(wait_status(WaitEvent::Request(Some(exit_request(err_code))))),
        ) == AfterSession::Leave <==> err_code == Some(0i32),
{
}

/// The program leaves on a request to exit, on a signal, and when nobody can make requests any
/// more; it starts another session on a request to restart and after a failure.
pub proof fn law_only_restart_and_failure_start_again(event: WaitEvent)
    ensures
        afterwards(Some(wait_status(event))) == AfterSession::StartAgain <==> event
            == WaitEvent::Request(Some(SessionRequest::Restart)),
        afterwards(None) == AfterSession::StartAgain,
{
}

/// What follows a session that ended so, or that failed (`None`): only a session that exited is
/// the last one.
pub fn after_session(status: Option<Status>) -> (r: AfterSession)
    ensures
        r == afterwards(status),
{
    match status {
        Some(Status::Exited) => AfterSession::Leave,
        Some(Status::Restarted) => AfterSession::StartAgain,
        None => AfterSession::StartAgain,
    }
}

/// How long a step of the shutdown takes at most, in seconds.
pub open spec fn time_of(step: Step) -> u64 {
    match step {
        Step::AwaitSettingsExit(_) => 1,
        Step::Linger(_) => 2,
        _ => 0,
    }
}

/// The shutdown takes its time whether the session exits or restarts: the exit of the settings
/// daemon is awaited for one second, the other processes are left two, and no other step has a time.
pub proof fn law_shutdown_takes_its_time(status: Status, step: Step)
    ensures
        time_of(Step::AwaitSettingsExit(status)) == 1,
        time_of(Step::Linger(status)) == 2,
        !(step is AwaitSettingsExit) && !(step is Linger) ==> time_of(step) == 0,
{
}

/// How long a step of the shutdown takes at most, in seconds.
pub fn seconds_of(step: Step) -> (r: u64)
    ensures
        r == time_of(step),
        r == match step {
            Step::AwaitSettingsExit(_) => 1u64,
            Step::Linger(_) => 2u64,
            _ => 0u64,
        },
{
    match step {
        Step::AwaitSettingsExit(_) => 1,
        Step::Linger(_) => 2,
        _ => 0,
    }
}

/// The exit of the settings daemon: `tx` is told once, when the daemon does not restart.
pub fn settings_daemon_exited<T>(tx: &mut Option<T>, will_restart: bool) -> (r: Option<T>)
    ensures
        r == if will_restart {
            None
        } else {
            *old(tx)
        },
        *final(tx) == if will_restart {
            *old(tx)
        } else {
            None
        },
{
    if will_restart {
        None
    } else {
        tx.take()
    }
}

/// How the settings daemon is launched: without arguments, and with nothing added to its
/// environment.
pub fn settings_daemon() -> (r: Launch)
    ensures
        r.executable@ == "cosmic-settings-daemon"@,
        r.args@.len() == 0,
        r.env_vars@.len() == 0,
{
    Launch {
        executable: "cosmic-settings-daemon".to_owned(),
        args: Vec::new(),
        env_vars: Vec::new(),
    }
}

/// How processes that exit are restarted.
#[derive(Debug, Clone, Copy, PartialEq, Eq, Structural)]
pub struct RestartPolicy {
    pub max_restarts: usize,
    /// The first delay, which grows from restart to restart.
    pub backoff_millis: u64,
}

/// Processes are restarted without limit, the first time after ten milliseconds.
pub fn restart_policy() -> (r: RestartPolicy)
    ensures
        r == (RestartPolicy { max_restarts: usize::MAX, backoff_millis: 10 }),
{
    RestartPolicy { max_restarts: usize::MAX, backoff_millis: 10 }
}

/// The compositor and its arguments, from the program's own arguments.
pub fn compositor_command(args: Vec<String>) -> (r: (String, Vec<String>))
    ensures
        args@.len() == 0 ==> r.0@ == "cosmic-comp"@ && r.1@.len() == 0,
        args@.len() > 0 ==> r.0 == args@[0] && r.1@ == args@.skip(1),
{
    let mut args = args;
    if args.len() == 0 {
        ("cosmic-comp".to_owned(), args)
    } else {
        let first: String = args.remove(0);
        (first, args)
    }
}

/// The variable that tells programs what kind of session they run in, and the command that tells
/// the services of the user.
pub fn export_session_type() -> (r: (EnvVar, CommandLine))
    ensures
        r.0@ == ("XDG_SESSION_TYPE"@, "wayland"@),
        r.1@ == (
            "systemctl"@,
            seq!["--user"@, "set-environment"@, "XDG_SESSION_TYPE"@ + "="@ + "wayland"@],
        ),
{
    (
        EnvVar { key: "XDG_SESSION_TYPE".to_owned(), value: "wayland".to_owned() },
        set_systemd_environment("XDG_SESSION_TYPE", "wayland"),
    )
}

/// The environment that a session gives to its processes.
pub open spec fn session_env_of(compositor: Seq<Pair>) -> Seq<Pair> {
    compositor.push(("XDG_SESSION_TYPE"@, "wayland"@))
}

/// The environment of the session's processes: what the compositor sent, and the session's type.
pub fn session_env(compositor: &[(String, String)]) -> (r: Vec<(String, String)>)
    ensures
        r.deep_view() == session_env_of(compositor.deep_view()),
{
    with_var(compositor, "XDG_SESSION_TYPE", "wayland".to_owned())
}

/// Every process of a session is told the type of the session: the screen reader and the programs
/// that are started with the session, which get the session's environment, each component, and the
/// notification daemon and the panel.
pub proof fn law_processes_know_session_type(
    compositor: Seq<Pair>,
    raw_fd: int,
    extra: Seq<Pair>,
    cmd: Seq<char>,
    fd: Pair,
    restart_cmd: Seq<char>,
    restart_env: Seq<Pair>,
)
    ensures
        ({
            let env = session_env_of(compositor);
            let told = ("XDG_SESSION_TYPE"@, "wayland"@);
            &&& env.contains(told)
            &&& launched_env(env, raw_fd, extra).contains(told)
            &&& process_of(cmd, env.push(fd), restart_cmd, restart_env).env_vars.contains(told)
        }),
{
    broadcast use vstd::seq_lib::group_filter_ensures;

    let env = session_env_of(compositor);
    let told = ("XDG_SESSION_TYPE"@, "wayland"@);
    let n = compositor.len() as int;
    assert(env[n] == told);
    assert(launched_env(env, raw_fd, extra)[n] == told);
    reveal_strlit("XDG_SESSION_TYPE");
    reveal_strlit("WAYLAND_SOCKET");
    assert("XDG_SESSION_TYPE"@.len() != "WAYLAND_SOCKET"@.len());
    let keep = |p: Pair| p.0 != "WAYLAND_SOCKET"@;
    assert(env.push(fd)[n] == told);
    assert(keep(env.push(fd)[n]));
    assert(env.push(fd).filter(keep).contains(env.push(fd)[n]));
}

/// The notification daemon and the panel, each with its end of their socket pair.
pub fn notifications_pair<F>(
    env_vars: &[(String, String)],
    keys: &FdKeys,
    panel: SocketEnd<F>,
    daemon: SocketEnd<F>,
) -> (r: (NotificationsLaunch<F>, NotificationsLaunch<F>))
    ensures
        ({
            let daemon_env = env_vars.deep_view().push(
                (keys.daemon@, decimal(daemon.raw_fd as int)),
            );
            let panel_env = env_vars.deep_view().push(
                (keys.panel@, decimal(panel.raw_fd as int)),
            );
            &&& r.0.process@ == process_of(
                "cosmic-notifications"@,
                daemon_env,
                "cosmic-panel"@,
                panel_env,
            )
            &&& r.0.fds@ == seq![daemon.fd]
            &&& r.1.process@ == process_of(
                "cosmic-panel"@,
                panel_env,
                "cosmic-notifications"@,
                daemon_env,
            )
            &&& r.1.fds@ == seq![panel.fd]
        }),
{
    let daemon_launch = notifications_process(
        "cosmic-notifications".to_owned(),
        with_fd(env_vars, keys.daemon.as_str(), daemon.raw_fd),
        daemon.fd,
        "cosmic-panel".to_owned(),
        with_fd(env_vars, keys.panel.as_str(), panel.raw_fd),
    );
    let panel_launch = notifications_process(
        "cosmic-panel".to_owned(),
        with_fd(env_vars, keys.panel.as_str(), panel.raw_fd),
        panel.fd,
        "cosmic-notifications".to_owned(),
        with_fd(env_vars, keys.daemon.as_str(), daemon.raw_fd),
    );
    (daemon_launch, panel_launch)
}

/// The components that every session starts, in order.
pub open spec fn component_names() -> Seq<Seq<char>> {
    seq![
        "cosmic-app-library"@,
        "cosmic-launcher"@,
        "cosmic-workspaces"@,
        "cosmic-osd"@,
        "cosmic-bg"@,
        "cosmic-greeter"@,
        "cosmic-files-applet"@,
        "cosmic-idle"@,
    ]
}

/// The name of the component with this index.
pub fn component_name(i: usize) -> (r: &'static str)
    requires
        i < COMPONENTS,
    ensures
        r@ == component_names()[i as int],
{
    match i {
        0 => "cosmic-app-library",
        1 => "cosmic-launcher",
        2 => "cosmic-workspaces",
        3 => "cosmic-osd",
        4 => "cosmic-bg",
        5 => "cosmic-greeter",
        6 => "cosmic-files-applet",
        _ => "cosmic-idle",
    }
}

/// How the component with this index is launched: with the session's environment and a socket of
/// its own, and with no further sockets.
pub fn session_component<F, S>(
    i: usize,
    env_vars: &[(String, String)],
    own: PrivilegedSocket<F, S>,
) -> (r: ComponentLaunch<F, S>)
    requires
        i < COMPONENTS,
    ensures
        r.executable@ == component_names()[i as int],
        r.env_vars.deep_view() == env_vars.deep_view().push(
            ("WAYLAND_SOCKET"@, decimal(own.raw_fd as int)),
        ),
        r.fds@ == seq![own.fd],
        r.sockets@ == seq![own.stream],
        r.extra_keys@.len() == 0,
{
    let none: Vec<ExtraFd<F, S>> = Vec::new();
    let r = start_component(component_name(i).to_owned(), env_vars, own, none);
    proof {
        assert(extra_env_of(none@) =~= Seq::<Pair>::empty());
        assert(r.fds@ =~= seq![own.fd]);
        assert(r.sockets@ =~= seq![own.stream]);
        assert(r.extra_keys.deep_view().len() == 0);
    }
    r
}

/// Whether the session brings its own desktop portal: where the environment names this desktop.
pub fn wants_portal(current_desktop: Option<&str>) -> (r: bool)
    ensures
        r == (current_desktop matches Some(name) && name@ == "COSMIC"@),
{
    match current_desktop {
        Some(name) => same(name, "COSMIC"),
        None => false,
    }
}

/// The desktop portal; `configured` is its path where one was configured.
pub fn portal_path(configured: Option<String>) -> (r: String)
    ensures
        r@ == match configured {
            Some(path) => path@,
            None => "/usr/libexec/xdg-desktop-portal-cosmic"@,
        },
{
    match configured {
        Some(path) => path,
        None => "/usr/libexec/xdg-desktop-portal-cosmic".to_owned(),
    }
}

/// The further socket of the desktop portal, where it could be created.
pub fn portal_extras<F, S>(socket: Option<PrivilegedSocket<F, S>>) -> (r: Vec<ExtraFd<F, S>>)
    ensures
        match socket {
            Some(s) => {
                &&& r@.len() == 1
                &&& r@[0].0 == s.fd
                &&& r@[0].1.0@ == "PORTAL_WAYLAND_SOCKET"@
                &&& r@[0].1.1@ == decimal(s.raw_fd as int)
                &&& r@[0].2 == s.stream
            },
            None => r@.len() == 0,
        },
{
    let mut extras: Vec<ExtraFd<F, S>> = Vec::new();
    if let Some(s) = socket {
        let none: Vec<(String, String)> = Vec::new();
        let mut sockets: Vec<S> = Vec::new();
        let mut env = create_privileged_socket(&mut sockets, s.stream, s.raw_fd, none.as_slice());
        let ghost named = env.deep_view();
        assert(none.deep_view() =~= Seq::<Pair>::empty());
        assert(named.len() == env@.len());
        assert(named[0] == (env@[0].0@, env@[0].1@));
        let (_, value) = env.remove(0);
        assert(value@ == named[0].1);
        let stream: S = sockets.remove(0);
        extras.push((s.fd, ("PORTAL_WAYLAND_SOCKET".to_owned(), value), stream));
    }
    extras
}

/// The variable that names the further socket of the desktop portal, where there is one.
pub open spec fn portal_env<F, S>(further: Option<PrivilegedSocket<F, S>>) -> Seq<Pair> {
    match further {
        Some(s) => seq![("PORTAL_WAYLAND_SOCKET"@, decimal(s.raw_fd as int))],
        None => Seq::empty(),
    }
}

/// How the desktop portal is launched: with the session's environment, a socket of its own, and a
/// further one where it could be created. `configured` is its path where one was configured.
pub fn portal_component<F, S>(
    configured: Option<String>,
    env_vars: &[(String, String)],
    own: PrivilegedSocket<F, S>,
    further: Option<PrivilegedSocket<F, S>>,
) -> (r: ComponentLaunch<F, S>)
    ensures
        r.executable@ == match configured {
            Some(path) => path@,
            None => "/usr/libexec/xdg-desktop-portal-cosmic"@,
        },
        r.env_vars.deep_view() == launched_env(
            env_vars.deep_view(),
            own.raw_fd as int,
            portal_env(further),
        ),
        r.fds@ == match further {
            Some(s) => seq![s.fd, own.fd],
            None => seq![own.fd],
        },
        r.sockets@ == match further {
            Some(s) => seq![own.stream, s.stream],
            None => seq![own.stream],
        },
        r.extra_keys.deep_view() == keys_of(portal_env(further)),
{
    let extras = portal_extras(further);
    proof {
        assert(extra_env_of(extras@) =~= portal_env(further));
        assert(extra_fds_of(extras@).push(own.fd) =~= match further {
            Some(s) => seq![s.fd, own.fd],
            None => seq![own.fd],
        });
        assert(seq![own.stream] + extra_streams_of(extras@) =~= match further {
            Some(s) => seq![own.stream, s.stream],
            None => seq![own.stream],
        });
    }
    start_component(portal_path(configured), env_vars, own, extras)
}

/// Whether `steps` is the course of a session up to some point, where each step but the last came
/// out as `outcomes` says.
#[verifier::opaque]
pub open spec fn is_course(systemd_used: bool, steps: Seq<Step>, outcomes: Seq<Outcome>) -> bool {
    &&& steps.len() == outcomes.len() + 1
    &&& steps[0] == Step::RunCompositor
    &&& forall|i: int|
        0 <= i < outcomes.len() ==> following(systemd_used, #[trigger] steps[i], outcomes[i])
            == Some(steps[i + 1])
}

proof fn lemma_course_is_run(systemd_used: bool, steps: Seq<Step>, outcomes: Seq<Outcome>)
    requires
        is_course(systemd_used, steps, outcomes),
    ensures
        is_run(systemd_used, steps),
        steps.len() == outcomes.len() + 1,
{
    reveal(is_course);
    assert forall|i: int| 0 <= i < steps.len() - 1 implies follows(
        systemd_used,
        #[trigger] steps[i],
        steps[i + 1],
    ) by {
        assert(following(systemd_used, steps[i], outcomes[i]) == Some(steps[i + 1]));
    }
}

proof fn lemma_course_step(
    systemd_used: bool,
    steps: Seq<Step>,
    outcomes: Seq<Outcome>,
    i: int,
)
    requires
        is_course(systemd_used, steps, outcomes),
        0 <= i < outcomes.len(),
    ensures
        following(systemd_used, steps[i], outcomes[i]) == Some(steps[i + 1]),
{
    reveal(is_course);
}

proof fn lemma_course_length(systemd_used: bool, steps: Seq<Step>, outcomes: Seq<Outcome>)
    requires
        is_course(systemd_used, steps, outcomes),
    ensures
        steps.len() == outcomes.len() + 1,
{
    reveal(is_course);
}

proof fn lemma_course_facts(
    systemd_used: bool,
    steps: Seq<Step>,
    outcomes: Seq<Outcome>,
    j: int,
    k: int,
)
    requires
        is_course(systemd_used, steps, outcomes),
        0 <= j <= k < steps.len(),
    ensures
        steps.len() == outcomes.len() + 1,
        steps[0] == Step::RunCompositor,
        steps[j] == steps[k] ==> j == k,
{
    lemma_course_is_run(systemd_used, steps, outcomes);
    if j < k {
        law_no_step_is_repeated(systemd_used, steps, j, k);
    }
}

proof fn lemma_course_ending(systemd_used: bool, steps: Seq<Step>, outcomes: Seq<Outcome>) -> (w:
    int)
    requires
        is_course(systemd_used, steps, outcomes),
        steps.last() is Finish,
    ensures
        0 <= w < steps.len() - 1,
        steps[w] == Step::Wait,
        steps[w + 1] == Step::StopCompositor(steps.last()->Finish_0),
{
    lemma_course_is_run(systemd_used, steps, outcomes);
    lemma_ending(systemd_used, steps, steps.len() - 1) - 1
}

proof fn lemma_startup_step(
    systemd_used: bool,
    steps: Seq<Step>,
    outcomes: Seq<Outcome>,
    w: int,
    j: int,
)
    requires
        is_course(systemd_used, steps, outcomes),
        0 <= j < w < steps.len(),
        steps[w] == Step::Wait,
    ensures
        match steps[j] {
            Step::RunCompositor => steps[j + 1] == Step::AwaitEnvironment,
            Step::AwaitEnvironment => steps[j + 1] == Step::ExportSessionType,
            Step::ExportSessionType => steps[j + 1] == if systemd_used {
                Step::SyncEnvironment
            } else {
                Step::StartSettingsDaemon
            },
            Step::SyncEnvironment => steps[j + 1] == Step::StartSettingsDaemon,
            Step::StartSettingsDaemon => steps[j + 1] == Step::StartTarget,
            Step::StartTarget => steps[j + 1] == Step::StartAccessibility,
            Step::StartAccessibility => steps[j + 1] == Step::CreateNotificationSocket,
            Step::CreateNotificationSocket => steps[j + 1] == Step::StartNotifications,
            Step::StartNotifications => steps[j + 1] == Step::StartPanel,
            Step::StartPanel => steps[j + 1] == Step::StartComponent(0),
            Step::StartComponent(i) => i < COMPONENTS && steps[j + 1] == if i + 1 < COMPONENTS {
                Step::StartComponent((i + 1) as usize)
            } else {
                Step::CheckDesktop
            },
            Step::CheckDesktop => outcomes[j] is Desktop && steps[j + 1] == if outcomes[j]
                == Outcome::Desktop(true) {
                Step::StartPortal
            } else if systemd_used {
                Step::Wait
            } else {
                Step::RunAutostart
            },
            Step::StartPortal => steps[j + 1] == if systemd_used {
                Step::Wait
            } else {
                Step::RunAutostart
            },
            Step::RunAutostart => steps[j + 1] == Step::Wait,
            _ => false,
        },
{
    lemma_course_is_run(systemd_used, steps, outcomes);
    lemma_places(systemd_used, steps, j);
    lemma_ranks_grow(systemd_used, steps, j, w);
    if j + 1 < w {
        lemma_ranks_grow(systemd_used, steps, j + 1, w);
    }
    lemma_course_step(systemd_used, steps, outcomes, j);
    if steps[j + 1] == Step::Fail {
        lemma_course_step(systemd_used, steps, outcomes, j + 1);
    }
    match outcomes[j] {
        Outcome::Done => {},
        Outcome::Failed => {},
        Outcome::Panicked => {},
        Outcome::Desktop(_) => {},
        Outcome::Ended(_) => {},
    }
}

proof fn lemma_components_in_order(
    systemd_used: bool,
    steps: Seq<Step>,
    outcomes: Seq<Outcome>,
    w: int,
    first: int,
    i: int,
)
    requires
        is_course(systemd_used, steps, outcomes),
        0 <= first < w < steps.len(),
        steps[w] == Step::Wait,
        steps[first] == Step::StartComponent(0),
        0 <= i < COMPONENTS,
    ensures
        first + i < w,
        steps[first + i] == Step::StartComponent(i as usize),
    decreases i,
{
    if i > 0 {
        lemma_components_in_order(systemd_used, steps, outcomes, w, first, i - 1);
        lemma_startup_step(systemd_used, steps, outcomes, w, first + i - 1);
    }
}

/// A session that waits for requests has taken these steps, in this order, and no others: `base` is
/// the index of the start of the settings daemon, which comes one step later where the environment
/// of the service manager is taken over first.
pub proof fn law_startup_takes_these_steps(
    systemd_used: bool,
    steps: Seq<Step>,
    outcomes: Seq<Outcome>,
    w: int,
) -> (base: int)
    requires
        is_course(systemd_used, steps, outcomes),
        0 <= w < steps.len(),
        steps[w] == Step::Wait,
    ensures
        base == if systemd_used {
            4int
        } else {
            3int
        },
        base + 14 < w,
        steps[0] == Step::RunCompositor,
        steps[1] == Step::AwaitEnvironment,
        steps[2] == Step::ExportSessionType,
        systemd_used ==> steps[3] == Step::SyncEnvironment,
        steps[base] == Step::StartSettingsDaemon,
        steps[base + 1] == Step::StartTarget,
        steps[base + 2] == Step::StartAccessibility,
        steps[base + 3] == Step::CreateNotificationSocket,
        steps[base + 4] == Step::StartNotifications,
        steps[base + 5] == Step::StartPanel,
        forall|i: int|
            0 <= i < 8 ==> #[trigger] steps[base + 6 + i] == Step::StartComponent(i as usize),
        steps[base + 14] == Step::CheckDesktop,
        outcomes[base + 14] is Desktop,
        ({
            let portal = outcomes[base + 14] == Outcome::Desktop(true);
            steps.subrange(base + 15, w + 1) == (if portal {
                seq![Step::StartPortal]
            } else {
                Seq::empty()
            }) + (if systemd_used {
                Seq::empty()
            } else {
                seq![Step::RunAutostart]
            }) + seq![Step::Wait]
        }),
{
    let base: int = if systemd_used {
        4
    } else {
        3
    };
    lemma_course_facts(systemd_used, steps, outcomes, 0, w);
    lemma_startup_step(systemd_used, steps, outcomes, w, 0);
    lemma_startup_step(systemd_used, steps, outcomes, w, 1);
    lemma_startup_step(systemd_used, steps, outcomes, w, 2);
    if systemd_used {
        lemma_startup_step(systemd_used, steps, outcomes, w, 3);
    }
    lemma_startup_step(systemd_used, steps, outcomes, w, base);
    lemma_startup_step(systemd_used, steps, outcomes, w, base + 1);
    lemma_startup_step(systemd_used, steps, outcomes, w, base + 2);
    lemma_startup_step(systemd_used, steps, outcomes, w, base + 3);
    lemma_startup_step(systemd_used, steps, outcomes, w, base + 4);
    lemma_startup_step(systemd_used, steps, outcomes, w, base + 5);
    assert forall|i: int| 0 <= i < 8 implies #[trigger] steps[base + 6 + i]
        == Step::StartComponent(i as usize) by {
        lemma_components_in_order(systemd_used, steps, outcomes, w, base + 6, i);
    }
    lemma_components_in_order(systemd_used, steps, outcomes, w, base + 6, 7);
    lemma_startup_step(systemd_used, steps, outcomes, w, base + 13);
    lemma_startup_step(systemd_used, steps, outcomes, w, base + 14);
    let portal = outcomes[base + 14] == Outcome::Desktop(true);
    let mut next = base + 15;
    if portal {
        lemma_startup_step(systemd_used, steps, outcomes, w, next);
        next = next + 1;
    }
    if !systemd_used {
        lemma_startup_step(systemd_used, steps, outcomes, w, next);
        next = next + 1;
    }
    assert(steps[next] == Step::Wait);
    lemma_course_facts(systemd_used, steps, outcomes, next, w);
    assert(next == w);
    assert(steps.subrange(base + 15, w + 1) =~= (if portal {
        seq![Step::StartPortal]
    } else {
        Seq::empty()
    }) + (if systemd_used {
        Seq::empty()
    } else {
        seq![Step::RunAutostart]
    }) + seq![Step::Wait]);
    base
}

/// A session that is over has waited, at `w`, until it was told how to end, and has then taken these
/// steps, in this order, and no others, however it was to end: the settings daemon is stopped, and
/// its exit is awaited where the stop succeeded.
pub proof fn law_shutdown_takes_these_steps(
    systemd_used: bool,
    steps: Seq<Step>,
    outcomes: Seq<Outcome>,
    status: Status,
) -> (w: int)
    requires
        is_course(systemd_used, steps, outcomes),
        steps.last() == Step::Finish(status),
    ensures
        0 <= w < steps.len() - 5,
        steps[w] == Step::Wait,
        outcomes[w] == Outcome::Ended(status),
        outcomes[w + 2] == Outcome::Done || outcomes[w + 2] == Outcome::Failed,
        steps.skip(w + 1) == seq![
            Step::StopCompositor(status),
            Step::StopSettingsDaemon(status),
        ] + (if outcomes[w + 2] == Outcome::Done {
            seq![Step::AwaitSettingsExit(status)]
        } else {
            Seq::empty()
        }) + seq![Step::Linger(status), Step::StopTarget(status), Step::Finish(status)],
{
    let last = steps.len() - 1;
    lemma_course_length(systemd_used, steps, outcomes);
    let w = lemma_course_ending(systemd_used, steps, outcomes);
    lemma_shutdown_step(systemd_used, steps, outcomes, status, w);
    lemma_shutdown_step(systemd_used, steps, outcomes, status, w + 1);
    lemma_shutdown_step(systemd_used, steps, outcomes, status, w + 2);
    lemma_shutdown_step(systemd_used, steps, outcomes, status, w + 3);
    lemma_shutdown_step(systemd_used, steps, outcomes, status, w + 4);
    if outcomes[w + 2] == Outcome::Done {
        lemma_shutdown_step(systemd_used, steps, outcomes, status, w + 5);
        assert(w + 6 == last);
    } else {
        assert(w + 5 == last);
    }
    assert(steps.skip(w + 1) =~= seq![
        Step::StopCompositor(status),
        Step::StopSettingsDaemon(status),
    ] + (if outcomes[w + 2] == Outcome::Done {
        seq![Step::AwaitSettingsExit(status)]
    } else {
        Seq::empty()
    }) + seq![Step::Linger(status), Step::StopTarget(status), Step::Finish(status)]);
    w
}

proof fn lemma_shutdown_step(
    systemd_used: bool,
    steps: Seq<Step>,
    outcomes: Seq<Outcome>,
    status: Status,
    j: int,
)
    requires
        is_course(systemd_used, steps, outcomes),
        steps.last() == Step::Finish(status),
        0 <= j < outcomes.len(),
        steps[j + 1] == Step::StopCompositor(status) || (ending(steps[j]) == Some(status)),
    ensures
        steps[j] == Step::Wait ==> outcomes[j] == Outcome::Ended(status),
        steps[j] == Step::StopCompositor(status) ==> steps[j + 1] == Step::StopSettingsDaemon(
            status,
        ),
        steps[j] == Step::StopSettingsDaemon(status) ==> (outcomes[j] == Outcome::Done && steps[j
            + 1] == Step::AwaitSettingsExit(status)) || (outcomes[j] == Outcome::Failed && steps[j
            + 1] == Step::Linger(status)),
        steps[j] == Step::AwaitSettingsExit(status) ==> steps[j + 1] == Step::Linger(status),
        steps[j] == Step::Linger(status) ==> steps[j + 1] == Step::StopTarget(status),
        steps[j] == Step::StopTarget(status) ==> steps[j + 1] == Step::Finish(status),
        ending(steps[j + 1]) == Some(status),
        steps[j + 1] is Finish <==> j + 1 == steps.len() - 1,
{
    let last = steps.len() - 1;
    lemma_course_is_run(systemd_used, steps, outcomes);
    lemma_places(systemd_used, steps, j);
    lemma_ranks_grow(systemd_used, steps, j, last);
    if j + 1 < last {
        lemma_ranks_grow(systemd_used, steps, j + 1, last);
    }
    lemma_course_step(systemd_used, steps, outcomes, j);
    match outcomes[j] {
        Outcome::Done => {},
        Outcome::Failed => {},
        Outcome::Panicked => {},
        Outcome::Desktop(_) => {},
        Outcome::Ended(_) => {},
    }
}

/// A session that panics does nothing more than to stop its target, where that was started and its
/// stop has not begun, and to go on with the panic.
pub proof fn law_panic_only_stops_the_target(
    systemd_used: bool,
    steps: Seq<Step>,
    outcomes: Seq<Outcome>,
    i: int,
)
    requires
        is_course(systemd_used, steps, outcomes),
        0 <= i < outcomes.len(),
        outcomes[i] == Outcome::Panicked,
    ensures
        ({
            let runs = steps.take(i + 1).contains(Step::StartAccessibility) && !(
            steps[i] is StopTarget) && steps[i] != Step::StopTargetInPanic;
            &&& steps[i + 1] == if runs {
                Step::StopTargetInPanic
            } else {
                Step::Panic
            }
            &&& !runs ==> steps.len() == i + 2
            &&& runs && steps.len() > i + 2 ==> steps[i + 2] == Step::Panic && steps.len() == i + 3
        }),
{
    lemma_course_is_run(systemd_used, steps, outcomes);
    lemma_places(systemd_used, steps, i);
    let before = steps.take(i + 1);
    lemma_course_step(systemd_used, steps, outcomes, i);
    if before.contains(Step::StartAccessibility) {
        let a = before.index_of(Step::StartAccessibility);
        assert(steps[a] == Step::StartAccessibility);
        if a < i {
            lemma_ranks_grow(systemd_used, steps, a, i);
        }
    } else if rank(steps[i]) >= 6 && !panicking(steps[i]) {
        let a = lemma_passes(systemd_used, steps, i, 6);
        lemma_places(systemd_used, steps, a);
        assert(before[a] == Step::StartAccessibility);
    }
    if steps.len() > i + 2 {
        lemma_course_step(systemd_used, steps, outcomes, i + 1);
        if steps.len() > i + 3 {
            lemma_course_step(systemd_used, steps, outcomes, i + 2);
        }
    }
}

/// Any step but the last ones can panic. Apart from that, the check of the desktop tells whether it
/// is this one, the wait tells how to end, and every other step is done or, for the four whose
/// failure is borne, fails.
pub proof fn law_steps_come_out_so(systemd_used: bool, step: Step, outcome: Outcome)
    ensures
        following(systemd_used, step, outcome) is Some <==> !(step is Finish) && step != Step::Fail
            && step != Step::Panic && match outcome {
            Outcome::Panicked => true,
            Outcome::Desktop(_) => step == Step::CheckDesktop,
            Outcome::Ended(_) => step == Step::Wait,
            Outcome::Failed => step == Step::RunCompositor || step == Step::SyncEnvironment
                || step is StopSettingsDaemon || step is AwaitSettingsExit,
            Outcome::Done => step != Step::CheckDesktop && step != Step::Wait,
        },
{
}

/// Only the compositor is indispensable: its failure ends the session, and any other failure that
/// is borne leads to the step that would have been next but one at the latest.
pub proof fn law_other_failures_are_borne(systemd_used: bool, status: Status)
    ensures
        following(systemd_used, Step::RunCompositor, Outcome::Failed) == Some(Step::Fail),
        following(systemd_used, Step::SyncEnvironment, Outcome::Failed) == following(
            systemd_used,
            Step::SyncEnvironment,
            Outcome::Done,
        ),
        following(systemd_used, Step::AwaitSettingsExit(status), Outcome::Failed) == following(
            systemd_used,
            Step::AwaitSettingsExit(status),
            Outcome::Done,
        ),
        ({
            let next = following(systemd_used, Step::StopSettingsDaemon(status), Outcome::Done);
            next is Some && following(
                systemd_used,
                Step::StopSettingsDaemon(status),
                Outcome::Failed,
            ) == following(systemd_used, next->0, Outcome::Done)
        }),
{
}

/// The environment of the session is what the compositor sent, as it is, with the session's type
/// behind it.
pub proof fn law_session_env_keeps_what_was_sent(compositor: Seq<Pair>)
    ensures
        session_env_of(compositor).len() == compositor.len() + 1,
        session_env_of(compositor).take(compositor.len() as int) == compositor,
        session_env_of(compositor).last() == ("XDG_SESSION_TYPE"@, "wayland"@),
{
    assert(session_env_of(compositor).take(compositor.len() as int) =~= compositor);
}

/// The further socket of the desktop portal is named by its number, where there is one.
pub proof fn law_portal_is_told_its_further_socket<F, S>(socket: PrivilegedSocket<F, S>)
    ensures
        portal_env(Some(socket)) == seq![
            ("PORTAL_WAYLAND_SOCKET"@, decimal(socket.raw_fd as int)),
        ],
        portal_env(None::<PrivilegedSocket<F, S>>) == Seq::<Pair>::empty(),
{
}

/// The session ends as it was told: a request to restart restarts it, and everything else that it
/// waits for ends it.
pub proof fn law_only_a_request_restarts(event: WaitEvent)
    ensures
        wait_status(event) == Status::Restarted <==> event == WaitEvent::Request(
            Some(SessionRequest::Restart),
        ),
        afterwards(Some(Status::Exited)) == AfterSession::Leave,
        afterwards(Some(Status::Restarted)) == AfterSession::StartAgain,
        afterwards(None) == AfterSession::StartAgain,
{
}

/// The components have these names, in this order.
pub proof fn law_components_are_these()
    ensures
        component_names().len() == COMPONENTS,
        component_names()[0] == "cosmic-app-library"@,
        component_names()[1] == "cosmic-launcher"@,
        component_names()[2] == "cosmic-workspaces"@,
        component_names()[3] == "cosmic-osd"@,
        component_names()[4] == "cosmic-bg"@,
        component_names()[5] == "cosmic-greeter"@,
        component_names()[6] == "cosmic-files-applet"@,
        component_names()[7] == "cosmic-idle"@,
{
}

/// The steps of a course are those that `next_step` gives.
pub proof fn law_next_step_makes_the_course(
    systemd_used: bool,
    steps: Seq<Step>,
    outcomes: Seq<Outcome>,
    i: int,
    first: Step,
    next: Option<Step>,
)
    requires
        is_course(systemd_used, steps, outcomes),
        0 <= i < outcomes.len(),
        call_ensures(start, (), first),
        call_ensures(next_step, (systemd_used, steps[i], outcomes[i]), next),
    ensures
        first == steps[0],
        next == Some(steps[i + 1]),
{
    lemma_course_length(systemd_used, steps, outcomes);
    lemma_course_facts(systemd_used, steps, outcomes, i, i);
    lemma_course_step(systemd_used, steps, outcomes, i);
}

/// However a session is to end, its settings daemon is stopped once the compositor is, its exit is
/// awaited where the stop succeeded, and the target is stopped at the end.
pub proof fn law_every_end_stops_the_settings_daemon(
    systemd_used: bool,
    status: Status,
    a: Option<Step>,
    b: Option<Step>,
    failed: Option<Step>,
    c: Option<Step>,
    late: Option<Step>,
    d: Option<Step>,
    e: Option<Step>,
    f: Option<Step>,
)
    requires
        call_ensures(next_step, (systemd_used, Step::Wait, Outcome::Ended(status)), a),
        call_ensures(next_step, (systemd_used, a->0, Outcome::Done), b),
        call_ensures(next_step, (systemd_used, b->0, Outcome::Failed), failed),
        call_ensures(next_step, (systemd_used, b->0, Outcome::Done), c),
        call_ensures(next_step, (systemd_used, c->0, Outcome::Failed), late),
        call_ensures(next_step, (systemd_used, c->0, Outcome::Done), d),
        call_ensures(next_step, (systemd_used, d->0, Outcome::Done), e),
        call_ensures(next_step, (systemd_used, e->0, Outcome::Done), f),
    ensures
        a == Some(Step::StopCompositor(status)),
        b == Some(Step::StopSettingsDaemon(status)),
        c == Some(Step::AwaitSettingsExit(status)),
        d == Some(Step::Linger(status)),
        failed == d,
        late == d,
        e == Some(Step::StopTarget(status)),
        f == Some(Step::Finish(status)),
{
}

/// The program goes on after a request to restart and after a failed session, and leaves after
/// anything else that ends a session; so it leaves when the compositor exits with code zero, and
/// goes on after any other exit of the compositor.
pub proof fn law_program_goes_on_after_a_restart(
    event: WaitEvent,
    status: Status,
    after: AfterSession,
    failed: AfterSession,
    code: Option<i32>,
    request: SessionRequest,
    exit_status: Status,
    after_exit: AfterSession,
)
    requires
        call_ensures(on_wait, (event,), status),
        call_ensures(after_session, (Some(status),), after),
        call_ensures(after_session, (None::<Status>,), failed),
        call_ensures(on_compositor_exit, (code,), request),
        call_ensures(on_wait, (WaitEvent::Request(Some(request)),), exit_status),
        call_ensures(after_session, (Some(exit_status),), after_exit),
    ensures
        after == AfterSession::StartAgain <==> event == WaitEvent::Request(
            Some(SessionRequest::Restart),
        ),
        failed == AfterSession::StartAgain,
        after_exit == AfterSession::Leave <==> code == Some(0i32),
{
}

/// The compositor and its arguments are the program's own arguments, in order, where there are any.
pub proof fn law_compositor_is_the_first_argument(args: Vec<String>, r: (String, Vec<String>))
    requires
        call_ensures(compositor_command, (args,), r),
    ensures
        args@.len() > 0 ==> seq![r.0] + r.1@ == args@,
        args@.len() == 0 ==> r.0@ == "cosmic-comp"@ && r.1@.len() == 0,
{
    if args@.len() > 0 {
        assert(seq![r.0] + r.1@ =~= args@);
    }
}

/// Every process of a session starts from what the compositor sent and the session's type, and a
/// component has one more variable, which names its socket, and that socket only.
pub proof fn law_component_has_the_session_environment<F, S>(
    compositor: &[(String, String)],
    env: Vec<(String, String)>,
    given: &[(String, String)],
    i: usize,
    own: PrivilegedSocket<F, S>,
    name: &'static str,
    r: ComponentLaunch<F, S>,
)
    requires
        i < COMPONENTS,
        call_ensures(session_env, (compositor,), env),
        given@ == env@,
        call_ensures(component_name, (i,), name),
        call_ensures(session_component::<F, S>, (i, given, own), r),
    ensures
        ({
            let n = compositor@.len() as int;
            let all = r.env_vars.deep_view();
            &&& all.len() == n + 2
            &&& all.take(n) == compositor.deep_view()
            &&& all[n] == ("XDG_SESSION_TYPE"@, "wayland"@)
            &&& all[n + 1] == ("WAYLAND_SOCKET"@, decimal(own.raw_fd as int))
        }),
        r.executable@ == name@,
        r.fds@ == seq![own.fd],
        r.sockets@ == seq![own.stream],
        r.extra_keys@.len() == 0,
{
    law_session_env_keeps_what_was_sent(compositor.deep_view());
    assert(compositor.deep_view().len() == compositor@.len());
    assert(given.deep_view() =~= env.deep_view());
    assert(r.env_vars.deep_view().take(compositor@.len() as int) =~= session_env_of(
        compositor.deep_view(),
    ).take(compositor@.len() as int));
}

/// The desktop portal has a variable for each of its sockets, each with the number of that socket's
/// descriptor, and the compositor gets the other ends.
pub proof fn law_portal_has_its_sockets<F, S>(
    configured: Option<String>,
    env_vars: &[(String, String)],
    own: PrivilegedSocket<F, S>,
    further: PrivilegedSocket<F, S>,
    path: String,
    two: ComponentLaunch<F, S>,
    one: ComponentLaunch<F, S>,
)
    requires
        call_ensures(portal_path, (configured,), path),
        call_ensures(
            portal_component::<F, S>,
            (configured, env_vars, own, Some(further)),
            two,
        ),
        call_ensures(
            portal_component::<F, S>,
            (configured, env_vars, own, None::<PrivilegedSocket<F, S>>),
            one,
        ),
    ensures
        two.executable@ == path@,
        one.executable@ == path@,
        configured is Some ==> path@ == configured->0@,
        configured is None ==> path@ == "/usr/libexec/xdg-desktop-portal-cosmic"@,
        one.env_vars.deep_view() == env_vars.deep_view().push(
            ("WAYLAND_SOCKET"@, decimal(own.raw_fd as int)),
        ),
        two.env_vars.deep_view() == one.env_vars.deep_view().push(
            ("PORTAL_WAYLAND_SOCKET"@, decimal(further.raw_fd as int)),
        ),
        one.fds@ == seq![own.fd],
        two.fds@ == seq![further.fd, own.fd],
        one.sockets@ == seq![own.stream],
        two.sockets@ == seq![own.stream, further.stream],
        one.extra_keys@.len() == 0,
        two.extra_keys.deep_view() == seq!["PORTAL_WAYLAND_SOCKET"@],
{
    assert(one.extra_keys.deep_view().len() == one.extra_keys@.len());
    assert(one.env_vars.deep_view() =~= env_vars.deep_view().push(
        ("WAYLAND_SOCKET"@, decimal(own.raw_fd as int)),
    ));
    assert(two.env_vars.deep_view() =~= one.env_vars.deep_view().push(
        ("PORTAL_WAYLAND_SOCKET"@, decimal(further.raw_fd as int)),
    ));
    assert(two.extra_keys.deep_view() =~= seq!["PORTAL_WAYLAND_SOCKET"@]);
}

/// The session brings its own portal where the environment names this desktop, and only there.
pub proof fn law_portal_is_for_this_desktop<'a>(name: &'a str, named: bool, unnamed: bool)
    requires
        call_ensures(wants_portal, (Some(name),), named),
        call_ensures(wants_portal, (None::<&'a str>,), unnamed),
    ensures
        named <==> name@ == "COSMIC"@,
        !unnamed,
{
}

/// The notification daemon and the panel each have one end of the socket pair, and each is ready to
/// start the other as the other was started: with its command, the session's environment, and the
/// number of its end.
pub proof fn law_daemon_and_panel_are_a_pair<F>(
    env_vars: &[(String, String)],
    keys: &FdKeys,
    panel: SocketEnd<F>,
    daemon: SocketEnd<F>,
    r: (NotificationsLaunch<F>, NotificationsLaunch<F>),
)
    requires
        call_ensures(notifications_pair::<F>, (env_vars, keys, panel, daemon), r),
    ensures
        r.0.fds@ == seq![daemon.fd],
        r.1.fds@ == seq![panel.fd],
        r.0.process.cmd@ == "cosmic-notifications"@,
        r.1.process.cmd@ == "cosmic-panel"@,
        r.0.process.restart_cmd@ == r.1.process.cmd@,
        r.1.process.restart_cmd@ == r.0.process.cmd@,
        r.1.process.restart_env_vars.deep_view() == env_vars.deep_view().push(
            (keys.daemon@, decimal(daemon.raw_fd as int)),
        ),
        r.0.process.restart_env_vars.deep_view() == env_vars.deep_view().push(
            (keys.panel@, decimal(panel.raw_fd as int)),
        ),
        r.0.process.env_vars.deep_view() == without_key(
            r.1.process.restart_env_vars.deep_view(),
            "WAYLAND_SOCKET"@,
        ),
        r.1.process.env_vars.deep_view() == without_key(
            r.0.process.restart_env_vars.deep_view(),
            "WAYLAND_SOCKET"@,
        ),
{
    assert(r.0.process@.cmd == r.0.process.cmd@);
    assert(r.1.process@.cmd == r.1.process.cmd@);
}

} // verus!
