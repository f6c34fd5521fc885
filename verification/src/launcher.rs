//! The launch of a program under given settings, as a sequence of decisions.
//!
//! The work on the system is done by the caller: to look for the program,
//! to create the child, to set its niceness, and so on. This module decides
//! what is done next. The caller starts in the phase `Idle` with the event
//! `Begin`, carries out the action that `step` answers with, and hands back
//! what came of it as the next event, until the action is `Exit` or `Fail`.
//!
//! The settings are applied by the parent once the child exists. The child
//! is not held back meanwhile, so it may run for a moment under the
//! settings it was created with.

use crate::config::PoliteConfig;
use vstd::prelude::*;
use vstd::string::StringExecFns;

verus! {

/// How far a launch has come.
#[derive(Clone, Copy, Debug, PartialEq, Eq, Structural)]
pub enum Phase {
    /// Nothing has been done.
    Idle,
    /// The program is being looked for.
    CheckingProgram,
    /// The child is being created.
    Forking,
    /// In the parent: the niceness of the child is being set.
    SettingNiceness { child: i32 },
    /// In the parent: the out-of-memory adjustment of the child is being set.
    SettingOomScore { child: i32 },
    /// In the parent: the child runs under its settings and is waited for.
    Waiting { child: i32 },
    /// In the child: it is being moved into a process group of its own.
    JoiningGroup,
    /// In the child: the program is being started in its place.
    Executing,
    /// The launch is over, and the process is to exit.
    Finished,
    /// The launch has failed. Nothing further is done: a child that exists
    /// is left as it is.
    Failed,
}

/// How the child ended.
#[derive(Clone, Copy, Debug, PartialEq, Eq, Structural)]
pub enum ChildEnd {
    /// It exited with this code.
    Exited(i32),
    /// It was ended by the signal of this number.
    Signaled(u8),
}

/// What came of the last action.
#[derive(Clone, Copy, Debug, PartialEq, Eq, Structural)]
pub enum Event {
    /// The launch is asked for.
    Begin,
    /// The program exists.
    ProgramFound,
    /// The program does not exist.
    ProgramMissing,
    /// The child was created, and this is the parent.
    ForkedParent { child: i32 },
    /// The child was created, and this is the child.
    ForkedChild,
    /// The action was carried out.
    Succeeded,
    /// The action could not be carried out.
    Failed,
    /// The child that was waited for has ended.
    ChildEnded(ChildEnd),
}

/// Why a launch failed.
#[derive(Clone, Copy, Debug, PartialEq, Eq, Structural)]
pub enum LaunchError {
    /// The program does not exist.
    ProgramNotFound,
    /// The child could not be created.
    Fork,
    /// The niceness of the child could not be set.
    Niceness,
    /// The out-of-memory adjustment of the child could not be set.
    OomScore,
    /// The child could not be waited for.
    Wait,
    /// The child could not be moved into a process group of its own.
    ProcessGroup,
}

/// What is to be done next.
#[derive(Clone, Copy, Debug, PartialEq, Eq, Structural)]
pub enum Action {
    /// Find out whether the program exists.
    CheckProgram,
    /// Create the child.
    Fork,
    /// Set the niceness of the child.
    SetNiceness { child: i32, niceness: i32 },
    /// Set the out-of-memory adjustment of the child.
    SetOomScore { child: i32, oom_score_adj: i32 },
    /// Say that the program was started, and wait until the child ends.
    AnnounceAndWait { child: i32 },
    /// Move this process, the child, into a process group of its own.
    JoinOwnGroup,
    /// Start the program in place of this process, with no standard input
    /// and with the standard output and error of the parent. This comes
    /// back only if it fails.
    Execute,
    /// Exit with this code.
    Exit { code: i32 },
    /// Give up with this error.
    Fail(LaunchError),
}

/// The exit code that stands for the way the child ended: its own where it
/// exited, and 128 more than the number of the signal that ended it.
pub open spec fn exit_code_of(end: ChildEnd) -> int {
    match end {
        ChildEnd::Exited(code) => code as int,
        ChildEnd::Signaled(signal) => 128 + signal,
    }
}

/// The next phase and the action to carry out, for an event that the phase
/// takes; nothing for one that it does not take.
///
/// The program is looked for before anything else, and no child is created
/// for a program that does not exist. The parent sets the niceness, then
/// the out-of-memory adjustment, then waits; a setting that fails ends the
/// launch at once. The child moves into its own process group and then
/// starts the program; where that fails it exits with code 1.
pub open spec fn next_step(phase: Phase, config: PoliteConfig, event: Event) -> Option<
    (Phase, Action),
> {
    match (phase, event) {
        (Phase::Idle, Event::Begin) => Some((Phase::CheckingProgram, Action::CheckProgram)),
        (Phase::CheckingProgram, Event::ProgramFound) => Some((Phase::Forking, Action::Fork)),
        (Phase::CheckingProgram, Event::ProgramMissing) => Some(
            (Phase::Failed, Action::Fail(LaunchError::ProgramNotFound)),
        ),
        (Phase::Forking, Event::ForkedParent { child }) => Some(
            (
                Phase::SettingNiceness { child },
                Action::SetNiceness { child, niceness: config.niceness() },
            ),
        ),
        (Phase::Forking, Event::ForkedChild) => Some((Phase::JoiningGroup, Action::JoinOwnGroup)),
        (Phase::Forking, Event::Failed) => Some((Phase::Failed, Action::Fail(LaunchError::Fork))),
        (Phase::SettingNiceness { child }, Event::Succeeded) => Some(
            (
                Phase::SettingOomScore { child },
                Action::SetOomScore { child, oom_score_adj: config.oom_score_adj() },
            ),
        ),
        (Phase::SettingNiceness { child }, Event::Failed) => Some(
            (Phase::Failed, Action::Fail(LaunchError::Niceness)),
        ),
        (Phase::SettingOomScore { child }, Event::Succeeded) => Some(
            (Phase::Waiting { child }, Action::AnnounceAndWait { child }),
        ),
        (Phase::SettingOomScore { child }, Event::Failed) => Some(
            (Phase::Failed, Action::Fail(LaunchError::OomScore)),
        ),
        (Phase::Waiting { child }, Event::ChildEnded(end)) => Some(
            (Phase::Finished, Action::Exit { code: exit_code_of(end) as i32 }),
        ),
        (Phase::Waiting { child }, Event::Failed) => Some(
            (Phase::Failed, Action::Fail(LaunchError::Wait)),
        ),
        (Phase::JoiningGroup, Event::Succeeded) => Some((Phase::Executing, Action::Execute)),
        (Phase::JoiningGroup, Event::Failed) => Some(
            (Phase::Failed, Action::Fail(LaunchError::ProcessGroup)),
        ),
        (Phase::Executing, Event::Failed) => Some((Phase::Finished, Action::Exit { code: 1 })),
        _ => None,
    }
}

/// Decides what is done next in a launch under `config`.
pub fn step(phase: Phase, config: &PoliteConfig, event: Event) -> (r: Option<(Phase, Action)>)
    ensures
        r == next_step(phase, *config, event),
{
    match (phase, event) {
        (Phase::Idle, Event::Begin) => Some((Phase::CheckingProgram, Action::CheckProgram)),
        (Phase::CheckingProgram, Event::ProgramFound) => Some((Phase::Forking, Action::Fork)),
        (Phase::CheckingProgram, Event::ProgramMissing) => Some(
            (Phase::Failed, Action::Fail(LaunchError::ProgramNotFound)),
        ),
        (Phase::Forking, Event::ForkedParent { child }) => Some(
            (
                Phase::SettingNiceness { child },
                Action::SetNiceness { child, niceness: config.niceness() },
            ),
        ),
        (Phase::Forking, Event::ForkedChild) => Some((Phase::JoiningGroup, Action::JoinOwnGroup)),
        (Phase::Forking, Event::Failed) => Some((Phase::Failed, Action::Fail(LaunchError::Fork))),
        (Phase::SettingNiceness { child }, Event::Succeeded) => Some(
            (
                Phase::SettingOomScore { child },
                Action::SetOomScore { child, oom_score_adj: config.oom_score_adj() },
            ),
        ),
        (Phase::SettingNiceness { child: _ }, Event::Failed) => Some(
            (Phase::Failed, Action::Fail(LaunchError::Niceness)),
        ),
        (Phase::SettingOomScore { child }, Event::Succeeded) => Some(
            (Phase::Waiting { child }, Action::AnnounceAndWait { child }),
        ),
        (Phase::SettingOomScore { child: _ }, Event::Failed) => Some(
            (Phase::Failed, Action::Fail(LaunchError::OomScore)),
        ),
        (Phase::Waiting { child: _ }, Event::ChildEnded(end)) => {
            let code: i32 = match end {
                ChildEnd::Exited(code) => code,
                ChildEnd::Signaled(signal) => 128 + signal as i32,
            };
            Some((Phase::Finished, Action::Exit { code }))
        },
        (Phase::Waiting { child: _ }, Event::Failed) => Some(
            (Phase::Failed, Action::Fail(LaunchError::Wait)),
        ),
        (Phase::JoiningGroup, Event::Succeeded) => Some((Phase::Executing, Action::Execute)),
        (Phase::JoiningGroup, Event::Failed) => Some(
            (Phase::Failed, Action::Fail(LaunchError::ProcessGroup)),
        ),
        (Phase::Executing, Event::Failed) => Some((Phase::Finished, Action::Exit { code: 1 })),
        _ => None,
    }
}

impl LaunchError {
    /// The message of the error. `detail` is the path of the program where
    /// the program was not found, and what the system said of the failure
    /// otherwise.
    pub open spec fn text(self, detail: Seq<char>) -> Seq<char> {
        match self {
            LaunchError::ProgramNotFound => "Program "@ + detail + " not found"@,
            LaunchError::Niceness => "Niceness error: "@ + detail,
            LaunchError::OomScore => "OOM error: "@ + detail,
            LaunchError::Fork => detail,
            LaunchError::Wait => detail,
            LaunchError::ProcessGroup => detail,
        }
    }

    /// The message of the error. `detail` is the path of the program where
    /// the program was not found, and what the system said of the failure
    /// otherwise.
    pub fn message(&self, detail: &str) -> (s: String)
        ensures
            s@ == self.text(detail@),
    {
        match self {
            LaunchError::ProgramNotFound => {
                let mut s = String::from_str("Program ");
                s.append(detail);
                s.append(" not found");
                s
            },
            LaunchError::Niceness => {
                let mut s = String::from_str("Niceness error: ");
                s.append(detail);
                s
            },
            LaunchError::OomScore => {
                let mut s = String::from_str("OOM error: ");
                s.append(detail);
                s
            },
            LaunchError::Fork => String::from_str(detail),
            LaunchError::Wait => String::from_str(detail),
            LaunchError::ProcessGroup => String::from_str(detail),
        }
    }
}

/// The phase that a launch is in after `events`, one after the other, and
/// the actions that were answered; nothing where one of the events was not
/// taken.
pub open spec fn run(phase: Phase, config: PoliteConfig, events: Seq<Event>) -> Option<
    (Phase, Seq<Action>),
>
    decreases events.len(),
{
    if events.len() == 0 {
        Some((phase, Seq::empty()))
    } else {
        match run(phase, config, events.drop_last()) {
            Some((before, actions)) => match next_step(before, config, events.last()) {
                Some((after, action)) => Some((after, actions.push(action))),
                None => None,
            },
            None => None,
        }
    }
}

/// The phase after `events`; this is told only of events that were all taken.
pub open spec fn phase_after(phase: Phase, config: PoliteConfig, events: Seq<Event>) -> Phase {
    match run(phase, config, events) {
        Some((after, _)) => after,
        None => phase,
    }
}

/// The actions that answered `events`, in order; this is told only of
/// events that were all taken.
pub open spec fn actions_of(phase: Phase, config: PoliteConfig, events: Seq<Event>) -> Seq<
    Action,
> {
    match run(phase, config, events) {
        Some((_, actions)) => actions,
        None => Seq::empty(),
    }
}

/// A launch that has run through some events has run through each
/// beginning of them, with the same actions so far; and it has answered
/// every event with one action.
pub proof fn lemma_run_prefix(phase: Phase, config: PoliteConfig, events: Seq<Event>, k: int)
    requires
        0 <= k <= events.len(),
        run(phase, config, events) is Some,
    ensures
        actions_of(phase, config, events).len() == events.len(),
        run(phase, config, events.take(k)) is Some,
        actions_of(phase, config, events.take(k)) == actions_of(phase, config, events).take(k),
    decreases events.len(),
{
    let all = actions_of(phase, config, events);
    if events.len() == 0 {
        assert(events.take(k) =~= events);
        assert(all.take(k) =~= all);
    } else {
        let shorter = events.drop_last();
        lemma_run_prefix(phase, config, shorter, shorter.len() as int);
        if k == events.len() {
            assert(events.take(k) =~= events);
            assert(all.take(k) =~= all);
        } else {
            lemma_run_prefix(phase, config, shorter, k);
            assert(shorter.take(k) =~= events.take(k));
            assert(actions_of(phase, config, shorter).take(k) =~= all.take(k));
        }
    }
}

/// The step that answered event `k` of a launch was taken in the phase
/// after the events before it.
pub proof fn lemma_run_step(phase: Phase, config: PoliteConfig, events: Seq<Event>, k: int)
    requires
        0 <= k < events.len(),
        run(phase, config, events) is Some,
    ensures
        run(phase, config, events.take(k)) is Some,
        run(phase, config, events.take(k + 1)) is Some,
        next_step(phase_after(phase, config, events.take(k)), config, events[k]) == Some(
            (phase_after(phase, config, events.take(k + 1)), actions_of(phase, config, events)[k]),
        ),
{
    lemma_run_prefix(phase, config, events, k + 1);
    lemma_run_prefix(phase, config, events, k);
    let upto = events.take(k + 1);
    assert(upto.drop_last() =~= events.take(k));
    assert(upto.last() == events[k]);
    let all = actions_of(phase, config, events);
    assert(actions_of(phase, config, events.take(k)).len() == k);
    assert(actions_of(phase, config, upto)[k] == all.take(k + 1)[k]);
}

/// A launch waits for the child only after both settings were applied to
/// that child, the niceness first and the out-of-memory adjustment second,
/// each with the value of the configuration and each with success.
pub proof fn lemma_wait_follows_settings(config: PoliteConfig, events: Seq<Event>, k: int)
    requires
        run(Phase::Idle, config, events) is Some,
        0 <= k < events.len(),
        actions_of(Phase::Idle, config, events)[k] is AnnounceAndWait,
    ensures
        k >= 4,
        ({
            let actions = actions_of(Phase::Idle, config, events);
            let child = actions[k]->AnnounceAndWait_child;
            &&& actions[k - 3] == Action::Fork
            &&& events[k - 2] == (Event::ForkedParent { child })
            &&& actions[k - 2] == (Action::SetNiceness { child, niceness: config.niceness() })
            &&& events[k - 1] == Event::Succeeded
            &&& actions[k - 1] == (Action::SetOomScore {
                child,
                oom_score_adj: config.oom_score_adj(),
            })
            &&& events[k] == Event::Succeeded
        }),
{
    let start = Phase::Idle;
    assert(events.take(0) =~= Seq::<Event>::empty());
    lemma_run_step(start, config, events, k);
    assert(k >= 1);
    lemma_run_step(start, config, events, k - 1);
    assert(k >= 2);
    lemma_run_step(start, config, events, k - 2);
    assert(k >= 3);
    lemma_run_step(start, config, events, k - 3);
    assert(k >= 4);
}

/// A child is created only for a program that was found: the launch asks
/// for it in answer to that finding and to nothing else, and a launch in
/// which the program was missing has ended there, without a child.
pub proof fn lemma_no_child_without_program(config: PoliteConfig, events: Seq<Event>, k: int)
    requires
        run(Phase::Idle, config, events) is Some,
        0 <= k < events.len(),
    ensures
        actions_of(Phase::Idle, config, events)[k] == Action::Fork ==> events[k]
            == Event::ProgramFound,
        events[k] == Event::ProgramMissing ==> {
            &&& k + 1 == events.len()
            &&& actions_of(Phase::Idle, config, events)[k] == Action::Fail(
                LaunchError::ProgramNotFound,
            )
            &&& forall|j: int|
                0 <= j < events.len() ==> actions_of(Phase::Idle, config, events)[j]
                    != Action::Fork
        },
{
    let start = Phase::Idle;
    assert(events.take(0) =~= Seq::<Event>::empty());
    lemma_run_step(start, config, events, k);
    if events[k] == Event::ProgramMissing {
        if k + 1 < events.len() {
            lemma_run_step(start, config, events, k + 1);
        }
        if k >= 1 {
            lemma_run_step(start, config, events, k - 1);
        }
        assert(k == 1);
        lemma_run_step(start, config, events, 0);
    }
}

/// A launch that has failed or has come to its exit takes no further
/// event: after a setting could not be applied, nothing more is done to
/// the child.
pub proof fn lemma_end_is_final(config: PoliteConfig, events: Seq<Event>, k: int)
    requires
        run(Phase::Idle, config, events) is Some,
        0 <= k < events.len(),
        actions_of(Phase::Idle, config, events)[k] is Fail || actions_of(
            Phase::Idle,
            config,
            events,
        )[k] is Exit,
    ensures
        k + 1 == events.len(),
{
    lemma_run_step(Phase::Idle, config, events, k);
    if k + 1 < events.len() {
        lemma_run_step(Phase::Idle, config, events, k + 1);
    }
}

} // verus!
