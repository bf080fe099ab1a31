//! The course of a run, from the options to the exit code.
//!
//! A run is in some phase, in which it has asked for something. What comes of
//! that leads to the next phase.

use vstd::pervasive::unreached;
use vstd::prelude::*;

use crate::acquire::{acquire, AcquireStep, Stage};
#[allow(unused_imports)]
use crate::acquire::{acquire_step, awaited, reaches, wait_action};
use crate::action::{is_answer, query, Action, Event, OpenMode, Query, Target};
#[allow(unused_imports)]
use crate::action::{answers, query_of, ActionView, EventView};
use crate::descriptor::parse_descriptor;
#[allow(unused_imports)]
use crate::descriptor::descriptor_of;
use crate::exit::{exit_code_of, exit_code_of_fault, EXIT_INTERNAL_ERROR};
#[allow(unused_imports)]
use crate::exit::{ended_code, fault_code};
use crate::holder::{read, sidecar_path, Guard, WriteStep, Writing};
#[allow(unused_imports)]
use crate::holder::{sidecar_path_of, summary_of, write_step};
#[allow(unused_imports)]
use crate::messages::{
    acquired_line, acquiring, debug_of, descriptor_line, failure_line, fault_line,
    no_descriptor_line, no_descriptors_line, opening, refused_line, unlock_misused_line, unlocking,
};
use crate::messages::{
    acquire_failure, acquired, descriptor_report, fault, no_descriptors, not_a_descriptor,
    open_failure, refused, unlock_failure, unlock_misused,
};
use crate::options::Opts;
#[allow(unused_imports)]
use crate::options::OptsView;

verus! {

/// How far the running of a command under the lock has come. `G` is the type of
/// a sidecar's guard.
pub enum WrapPhase<G> {
    /// The lock file is being opened for reading and writing.
    OpeningWritable,
    /// The lock file is being opened for reading only.
    OpeningReadOnly,
    /// The time before the lock is asked for is being noted.
    StartingTimer,
    /// The lock is being taken.
    Acquiring { stage: Stage },
    /// The lock was refused, and its holder is being looked up.
    FindingHolder,
    /// The lock is held, and the time that took is being read.
    ReadingTimer,
    /// The lock is held, which is being reported.
    Reporting,
    /// The lock is held, and what the sidecar says of this process is being
    /// gathered.
    Identifying,
    /// The lock is held, and the sidecar is being written.
    Writing { progress: Writing, pid: u32, since_epoch: Option<u64> },
    /// The lock is held, and the command is running.
    Running { guard: Option<G> },
    /// The lock is held, and it is being reported that the command did not run.
    ReportingFault { guard: Option<G>, code: i32 },
    /// The lock is held, and the sidecar is being removed.
    Removing { code: i32 },
    /// The lock file is being closed.
    Closing { code: i32 },
}

/// How far the locking of a descriptor has come.
#[derive(Clone, Copy, Debug, PartialEq, Eq, Structural)]
pub enum FdPhase {
    /// The lock is being taken.
    Acquiring { stage: Stage },
    /// The lock is being given up.
    Unlocking,
}

/// How far a run has come.
pub enum Phase<G> {
    /// A command is run under the lock on a file.
    Wrap(WrapPhase<G>),
    /// A descriptor is locked or unlocked.
    Fd { fd: i32, phase: FdPhase },
    /// A last line is being printed; the exit code is settled.
    Leaving { code: i32 },
    /// The process is about to end.
    Exited { code: i32 },
}

/// A phase, and what is asked for in it.
pub struct Step<G, S, L> {
    pub phase: Phase<G>,
    pub action: Action<S, L>,
}

impl<G: DeepView> DeepView for WrapPhase<G> {
    type V = WrapPhase<G::V>;

    open spec fn deep_view(&self) -> WrapPhase<G::V> {
        match *self {
            WrapPhase::OpeningWritable => WrapPhase::OpeningWritable,
            WrapPhase::OpeningReadOnly => WrapPhase::OpeningReadOnly,
            WrapPhase::StartingTimer => WrapPhase::StartingTimer,
            WrapPhase::Acquiring { stage } => WrapPhase::Acquiring { stage },
            WrapPhase::FindingHolder => WrapPhase::FindingHolder,
            WrapPhase::ReadingTimer => WrapPhase::ReadingTimer,
            WrapPhase::Reporting => WrapPhase::Reporting,
            WrapPhase::Identifying => WrapPhase::Identifying,
            WrapPhase::Writing { progress, pid, since_epoch } => WrapPhase::Writing {
                progress,
                pid,
                since_epoch,
            },
            WrapPhase::Running { guard } => WrapPhase::Running { guard: guard.deep_view() },
            WrapPhase::ReportingFault { guard, code } => WrapPhase::ReportingFault {
                guard: guard.deep_view(),
                code,
            },
            WrapPhase::Removing { code } => WrapPhase::Removing { code },
            WrapPhase::Closing { code } => WrapPhase::Closing { code },
        }
    }
}

impl<G: DeepView> DeepView for Phase<G> {
    type V = Phase<G::V>;

    open spec fn deep_view(&self) -> Phase<G::V> {
        match *self {
            Phase::Wrap(phase) => Phase::Wrap(phase.deep_view()),
            Phase::Fd { fd, phase } => Phase::Fd { fd, phase },
            Phase::Leaving { code } => Phase::Leaving { code },
            Phase::Exited { code } => Phase::Exited { code },
        }
    }
}

impl<G: DeepView, S: DeepView, L: DeepView> DeepView for Step<G, S, L> {
    type V = Step<G::V, S::V, L::V>;

    open spec fn deep_view(&self) -> Step<G::V, S::V, L::V> {
        Step { phase: self.phase.deep_view(), action: self.action.deep_view() }
    }
}

/// A phase as contracts see it: a guard is the path of its sidecar.
pub type PhaseView = Phase<Seq<char>>;

/// A step as contracts see it.
pub type StepView = Step<Seq<char>, Seq<char>, Seq<Seq<char>>>;

/// A step of a running program.
pub type RunStep = Step<Guard, String, Vec<String>>;

/// The lock file is opened as it is, or created empty: never truncated.
pub open spec fn writable() -> OpenMode {
    OpenMode { read: true, write: true, create: true, truncate: false }
}

/// The fallback for a lock file that cannot be opened for writing.
pub open spec fn read_only() -> OpenMode {
    OpenMode { read: true, write: false, create: false, truncate: false }
}

/// The end of a run.
pub open spec fn leave(code: i32) -> StepView {
    Step { phase: Phase::Exited { code }, action: Action::Exit { code } }
}

/// The end of a run, with something to say first.
pub open spec fn say_and_leave(line: Seq<char>, code: i32) -> StepView {
    Step { phase: Phase::Leaving { code }, action: Action::Print { line } }
}

/// The end of a run that failed.
pub open spec fn fail(line: Seq<char>) -> StepView {
    say_and_leave(line, EXIT_INTERNAL_ERROR)
}

/// Taking the lock on a descriptor, one step further.
pub open spec fn fd_acquire_step(
    opts: OptsView,
    fd: i32,
    last: Option<(Stage, EventView)>,
) -> StepView {
    match acquire_step(opts, Target::Descriptor(fd), last) {
        AcquireStep::Ask { stage, action } => Step {
            phase: Phase::Fd { fd, phase: FdPhase::Acquiring { stage } },
            action,
        },
        AcquireStep::Acquired => if opts.verbose {
            say_and_leave(descriptor_line("acquired"@, fd as int), 0)
        } else {
            leave(0)
        },
        AcquireStep::Refused => if opts.verbose {
            say_and_leave(
                descriptor_line("failed to acquire"@, fd as int),
                opts.conflict_exit_code,
            )
        } else {
            leave(opts.conflict_exit_code)
        },
        AcquireStep::Failed { cause } => fail(
            failure_line(acquiring(Target::Descriptor(fd)), cause),
        ),
    }
}

/// Descriptor mode: takes or gives up the lock on the descriptor that the target
/// spells. `last` is the phase just gone through and what came of it, none at
/// the start.
pub open spec fn fd_step(
    opts: OptsView,
    fd: i32,
    last: Option<(FdPhase, EventView)>,
) -> StepView {
    match last {
        None => if opts.unlock {
            Step {
                phase: Phase::Fd { fd, phase: FdPhase::Unlocking },
                action: Action::Unlock { fd },
            }
        } else {
            fd_acquire_step(opts, fd, None)
        },
        Some((FdPhase::Unlocking, Event::Failed(cause))) => fail(
            failure_line(unlocking(fd as int), cause),
        ),
        Some((FdPhase::Unlocking, _)) => if opts.verbose {
            say_and_leave(descriptor_line("released"@, fd as int), 0)
        } else {
            leave(0)
        },
        Some((FdPhase::Acquiring { stage }, event)) => fd_acquire_step(
            opts,
            fd,
            Some((stage, event)),
        ),
    }
}

/// Opening the lock file, one step further: for writing if that can be had, else
/// for reading only. `last` tells which was just tried, true for writing, and
/// what came of it.
pub open spec fn open_step(opts: OptsView, last: Option<(bool, EventView)>) -> StepView {
    match last {
        None => Step {
            phase: Phase::Wrap(WrapPhase::OpeningWritable),
            action: Action::Open { path: opts.target, mode: writable() },
        },
        Some((true, Event::Failed(_))) => Step {
            phase: Phase::Wrap(WrapPhase::OpeningReadOnly),
            action: Action::Open { path: opts.target, mode: read_only() },
        },
        Some((false, Event::Failed(cause))) => fail(failure_line(opening(opts.target), cause)),
        Some(_) => Step {
            phase: Phase::Wrap(WrapPhase::StartingTimer),
            action: Action::StartTimer,
        },
    }
}

/// Taking the lock on the lock file, one step further.
pub open spec fn file_acquire_step(opts: OptsView, last: Option<(Stage, EventView)>) -> StepView {
    match acquire_step(opts, Target::File, last) {
        AcquireStep::Ask { stage, action } => Step {
            phase: Phase::Wrap(WrapPhase::Acquiring { stage }),
            action,
        },
        AcquireStep::Acquired => if opts.verbose {
            Step { phase: Phase::Wrap(WrapPhase::ReadingTimer), action: Action::ReadTimer }
        } else {
            Step { phase: Phase::Wrap(WrapPhase::Identifying), action: Action::Identify }
        },
        AcquireStep::Refused => if opts.verbose {
            Step {
                phase: Phase::Wrap(WrapPhase::FindingHolder),
                action: Action::ReadFile { path: sidecar_path_of(opts.target, opts.rules) },
            }
        } else {
            leave(opts.conflict_exit_code)
        },
        AcquireStep::Failed { cause } => fail(failure_line(acquiring(Target::File), cause)),
    }
}

/// Writing the sidecar, one step further, and then running the command, whatever
/// came of the sidecar.
pub open spec fn publish_step(
    opts: OptsView,
    pid: u32,
    since_epoch: Option<u64>,
    last: Option<(Writing, bool)>,
) -> StepView {
    match write_step(opts.target, opts.rules, opts.label, opts.shared, pid as nat, since_epoch, last) {
        WriteStep::Ask { stage, action } => Step {
            phase: Phase::Wrap(WrapPhase::Writing { progress: stage, pid, since_epoch }),
            action,
        },
        WriteStep::Finished { guard } => Step {
            phase: Phase::Wrap(WrapPhase::Running { guard }),
            action: Action::Spawn { program: opts.command[0], args: opts.command.skip(1) },
        },
    }
}

/// After the command: removes the sidecar, if there is one, and then closes the
/// lock file.
pub open spec fn release_step(guard: Option<Seq<char>>, code: i32) -> StepView {
    match guard {
        Some(path) => Step {
            phase: Phase::Wrap(WrapPhase::Removing { code }),
            action: Action::RemoveFile { path },
        },
        None => Step { phase: Phase::Wrap(WrapPhase::Closing { code }), action: Action::Close },
    }
}

/// Wrap mode: runs the command while holding the lock on the lock file.
pub open spec fn wrap_step(
    opts: OptsView,
    phase: WrapPhase<Seq<char>>,
    event: EventView,
) -> StepView {
    match phase {
        WrapPhase::OpeningWritable => open_step(opts, Some((true, event))),
        WrapPhase::OpeningReadOnly => open_step(opts, Some((false, event))),
        WrapPhase::StartingTimer => file_acquire_step(opts, None),
        WrapPhase::Acquiring { stage } => file_acquire_step(opts, Some((stage, event))),
        WrapPhase::FindingHolder => {
            let holder = match event->Contents_0 {
                Some(text) => summary_of(text),
                None => None,
            };
            say_and_leave(refused_line(holder), opts.conflict_exit_code)
        },
        WrapPhase::ReadingTimer => Step {
            phase: Phase::Wrap(WrapPhase::Reporting),
            action: Action::Print { line: acquired_line(event->Seconds_0) },
        },
        WrapPhase::Reporting => Step {
            phase: Phase::Wrap(WrapPhase::Identifying),
            action: Action::Identify,
        },
        WrapPhase::Identifying => publish_step(opts, event->pid, event->since_epoch, None),
        WrapPhase::Writing { progress, pid, since_epoch } => publish_step(
            opts,
            pid,
            since_epoch,
            Some((progress, event is Done)),
        ),
        WrapPhase::Running { guard } => match event {
            Event::NotSpawned { fault, cause } => Step {
                phase: Phase::Wrap(WrapPhase::ReportingFault { guard, code: fault_code(fault) }),
                action: Action::Print { line: fault_line(opts.command[0], cause) },
            },
            _ => release_step(guard, ended_code(event->code, event->signal) as i32),
        },
        WrapPhase::ReportingFault { guard, code } => release_step(guard, code),
        WrapPhase::Removing { code } => release_step(None, code),
        WrapPhase::Closing { code } => leave(code),
    }
}

/// The first step of a run. A target without a command is a descriptor; with a
/// command it is a lock file, whatever it looks like. `descriptors` tells
/// whether the platform has descriptors to lock.
pub open spec fn first_step(opts: OptsView, descriptors: bool) -> StepView {
    if opts.command.len() == 0 {
        if !descriptors {
            fail(no_descriptors_line())
        } else {
            match descriptor_of(opts.target) {
                Some(fd) => fd_step(opts, fd as i32, None),
                None => fail(no_descriptor_line(debug_of(opts.target))),
            }
        }
    } else if opts.unlock {
        fail(unlock_misused_line())
    } else {
        open_step(opts, None)
    }
}

/// The step that follows a phase and what came of it.
pub open spec fn next_step(opts: OptsView, phase: PhaseView, event: EventView) -> StepView {
    match phase {
        Phase::Wrap(wrap) => wrap_step(opts, wrap, event),
        Phase::Fd { fd, phase: fd_phase } => fd_step(opts, fd, Some((fd_phase, event))),
        Phase::Leaving { code } | Phase::Exited { code } => leave(code),
    }
}

/// Whether a phase is one that a run with these options can come to.
pub open spec fn in_course(opts: OptsView, phase: PhaseView) -> bool {
    match phase {
        Phase::Wrap(wrap) => {
            &&& opts.command.len() > 0
            &&& !opts.unlock
            &&& match wrap {
                WrapPhase::Acquiring { stage } => reaches(opts, Target::File, stage),
                WrapPhase::FindingHolder | WrapPhase::ReadingTimer | WrapPhase::Reporting =>
                opts.verbose,
                WrapPhase::Running { guard: Some(path) }
                | WrapPhase::ReportingFault { guard: Some(path), .. } => path == sidecar_path_of(
                    opts.target,
                    opts.rules,
                ),
                _ => true,
            }
        },
        Phase::Fd { fd, phase: fd_phase } => {
            &&& opts.command.len() == 0
            &&& descriptor_of(opts.target) == Some(fd as int)
            &&& match fd_phase {
                FdPhase::Acquiring { stage } => !opts.unlock && reaches(
                    opts,
                    Target::Descriptor(fd),
                    stage,
                ),
                FdPhase::Unlocking => opts.unlock,
            }
        },
        Phase::Leaving { .. } | Phase::Exited { .. } => true,
    }
}

/// The kind of answer that a phase waits for.
pub open spec fn awaited_in(opts: OptsView, phase: PhaseView) -> Query {
    match phase {
        Phase::Wrap(wrap) => match wrap {
            WrapPhase::OpeningWritable | WrapPhase::OpeningReadOnly | WrapPhase::Writing { .. }
            | WrapPhase::Removing { .. } => Query::Fallible,
            WrapPhase::StartingTimer | WrapPhase::Reporting | WrapPhase::ReportingFault { .. }
            | WrapPhase::Closing { .. } => Query::Plain,
            WrapPhase::Acquiring { stage } => awaited(opts, stage),
            WrapPhase::FindingHolder => Query::Text,
            WrapPhase::ReadingTimer => Query::Time,
            WrapPhase::Identifying => Query::Identity,
            WrapPhase::Running { .. } => Query::Command,
        },
        Phase::Fd { phase: FdPhase::Acquiring { stage }, .. } => awaited(opts, stage),
        Phase::Fd { phase: FdPhase::Unlocking, .. } => Query::Fallible,
        Phase::Leaving { .. } => Query::Plain,
        Phase::Exited { .. } => Query::Nothing,
    }
}

/// What a phase asks for the lock on.
pub open spec fn target_of(phase: PhaseView) -> Target {
    match phase {
        Phase::Fd { fd, .. } => Target::Descriptor(fd),
        _ => Target::File,
    }
}

/// A step that a run can come to: it asks for what its phase waits for, and
/// where that is the lock, for the lock that the options want.
pub open spec fn is_sound(opts: OptsView, step: StepView) -> bool {
    &&& in_course(opts, step.phase)
    &&& query_of(step.action) == awaited_in(opts, step.phase)
    &&& match step.phase {
        Phase::Wrap(WrapPhase::Acquiring { stage: Stage::Waiting }) | Phase::Fd {
            phase: FdPhase::Acquiring { stage: Stage::Waiting },
            ..
        } => step.action == wait_action(opts, target_of(step.phase)),
        Phase::Wrap(WrapPhase::Acquiring { stage: Stage::Trying }) | Phase::Fd {
            phase: FdPhase::Acquiring { stage: Stage::Trying },
            ..
        } => step.action == (ActionView::TryLock {
            target: target_of(step.phase),
            shared: opts.shared,
        }),
        _ => true,
    }
}

fn leave_with(code: i32) -> (step: RunStep)
    ensures
        step.deep_view() == leave(code),
{
    Step { phase: Phase::Exited { code }, action: Action::Exit { code } }
}

fn leave_saying(line: String, code: i32) -> (step: RunStep)
    ensures
        step.deep_view() == say_and_leave(line@, code),
{
    Step { phase: Phase::Leaving { code }, action: Action::Print { line } }
}

fn fd_acquire(opts: &Opts, fd: i32, last: Option<(Stage, Event<String>)>) -> (step: RunStep)
    requires
        last matches Some((stage, event)) ==> reaches(opts@, Target::Descriptor(fd), stage)
            && answers(awaited(opts@, stage), event),
        opts@.command.len() == 0,
        !opts@.unlock,
        descriptor_of(opts@.target) == Some(fd as int),
    ensures
        step.deep_view() == fd_acquire_step(
            opts@,
            fd,
            match last {
                Some((stage, event)) => Some((stage, event.deep_view())),
                None => None,
            },
        ),
        is_sound(opts@, step.deep_view()),
{
    match acquire(opts, Target::Descriptor(fd), last) {
        AcquireStep::Ask { stage, action } => Step {
            phase: Phase::Fd { fd, phase: FdPhase::Acquiring { stage } },
            action,
        },
        AcquireStep::Acquired => if opts.verbose {
            leave_saying(descriptor_report("acquired", fd), 0)
        } else {
            leave_with(0)
        },
        AcquireStep::Refused => if opts.verbose {
            leave_saying(descriptor_report("failed to acquire", fd), opts.conflict_exit_code)
        } else {
            leave_with(opts.conflict_exit_code)
        },
        AcquireStep::Failed { cause } => leave_saying(
            acquire_failure(Target::Descriptor(fd), cause.as_str()),
            EXIT_INTERNAL_ERROR,
        ),
    }
}

/// Takes descriptor mode one step further.
pub(crate) fn run_fd_mode(opts: &Opts, fd: i32, last: Option<(FdPhase, Event<String>)>) -> (step: RunStep)
    requires
        opts@.command.len() == 0,
        descriptor_of(opts@.target) == Some(fd as int),
        last matches Some((phase, event)) ==> {
            &&& in_course(opts@, Phase::Fd { fd, phase })
            &&& answers(awaited_in(opts@, Phase::Fd { fd, phase }), event)
        },
    ensures
        step.deep_view() == fd_step(
            opts@,
            fd,
            match last {
                Some((phase, event)) => Some((phase, event.deep_view())),
                None => None,
            },
        ),
        is_sound(opts@, step.deep_view()),
{
    match last {
        None => if opts.unlock {
            Step {
                phase: Phase::Fd { fd, phase: FdPhase::Unlocking },
                action: Action::Unlock { fd },
            }
        } else {
            fd_acquire(opts, fd, None)
        },
        Some((FdPhase::Unlocking, event)) => match event {
            Event::Failed(cause) => leave_saying(
                unlock_failure(fd, cause.as_str()),
                EXIT_INTERNAL_ERROR,
            ),
            _ => if opts.verbose {
                leave_saying(descriptor_report("released", fd), 0)
            } else {
                leave_with(0)
            },
        },
        Some((FdPhase::Acquiring { stage }, event)) => fd_acquire(opts, fd, Some((stage, event))),
    }
}

/// Takes the opening of the lock file one step further. `last` tells which way
/// was just tried, true for writing, and what came of it, none at the start.
pub(crate) fn open_lockfile(opts: &Opts, last: Option<(bool, Event<String>)>) -> (step: RunStep)
    requires
        opts@.command.len() > 0,
        !opts@.unlock,
        last matches Some((_, event)) ==> answers(Query::Fallible, event),
    ensures
        step.deep_view() == open_step(
            opts@,
            match last {
                Some((tried, event)) => Some((tried, event.deep_view())),
                None => None,
            },
        ),
        is_sound(opts@, step.deep_view()),
{
    match last {
        None => Step {
            phase: Phase::Wrap(WrapPhase::OpeningWritable),
            action: Action::Open {
                path: opts.target.clone(),
                mode: OpenMode { read: true, write: true, create: true, truncate: false },
            },
        },
        Some((tried, event)) => match event {
            Event::Failed(cause) => if tried {
                Step {
                    phase: Phase::Wrap(WrapPhase::OpeningReadOnly),
                    action: Action::Open {
                        path: opts.target.clone(),
                        mode: OpenMode { read: true, write: false, create: false, truncate: false },
                    },
                }
            } else {
                leave_saying(
                    open_failure(opts.target.as_str(), cause.as_str()),
                    EXIT_INTERNAL_ERROR,
                )
            },
            _ => Step {
                phase: Phase::Wrap(WrapPhase::StartingTimer),
                action: Action::StartTimer,
            },
        },
    }
}

fn file_acquire(opts: &Opts, last: Option<(Stage, Event<String>)>) -> (step: RunStep)
    requires
        last matches Some((stage, event)) ==> reaches(opts@, Target::File, stage) && answers(
            awaited(opts@, stage),
            event,
        ),
        opts@.command.len() > 0,
        !opts@.unlock,
    ensures
        step.deep_view() == file_acquire_step(
            opts@,
            match last {
                Some((stage, event)) => Some((stage, event.deep_view())),
                None => None,
            },
        ),
        is_sound(opts@, step.deep_view()),
{
    match acquire(opts, Target::File, last) {
        AcquireStep::Ask { stage, action } => Step {
            phase: Phase::Wrap(WrapPhase::Acquiring { stage }),
            action,
        },
        AcquireStep::Acquired => if opts.verbose {
            Step { phase: Phase::Wrap(WrapPhase::ReadingTimer), action: Action::ReadTimer }
        } else {
            Step { phase: Phase::Wrap(WrapPhase::Identifying), action: Action::Identify }
        },
        AcquireStep::Refused => if opts.verbose {
            Step {
                phase: Phase::Wrap(WrapPhase::FindingHolder),
                action: Action::ReadFile { path: sidecar_path(opts.target.as_str(), opts.rules) },
            }
        } else {
            leave_with(opts.conflict_exit_code)
        },
        AcquireStep::Failed { cause } => leave_saying(
            acquire_failure(Target::File, cause.as_str()),
            EXIT_INTERNAL_ERROR,
        ),
    }
}

/// A copy of all but the first of a list of texts.
fn rest_of(list: &Vec<String>) -> (rest: Vec<String>)
    requires
        list@.len() > 0,
    ensures
        rest.deep_view() == list.deep_view().skip(1),
{
    let mut rest: Vec<String> = Vec::new();
    let mut i: usize = 1;
    while i < list.len()
        invariant
            1 <= i <= list@.len(),
            rest@.len() == i - 1,
            forall|k: int| 0 <= k < rest@.len() ==> #[trigger] rest@[k]@ == list@[k + 1]@,
        decreases list.len() - i,
    {
        rest.push(list[i].clone());
        i = i + 1;
    }
    proof {
        assert(rest.deep_view() =~= list.deep_view().skip(1));
    }
    rest
}

fn publish(opts: &Opts, pid: u32, since_epoch: Option<u64>, last: Option<(Writing, bool)>) -> (step:
    RunStep)
    requires
        opts@.command.len() > 0,
        !opts@.unlock,
    ensures
        step.deep_view() == publish_step(opts@, pid, since_epoch, last),
        is_sound(opts@, step.deep_view()),
{
    let label: Option<&str> = match &opts.label {
        Some(text) => Some(text.as_str()),
        None => None,
    };
    match crate::holder::write(
        opts.target.as_str(),
        opts.rules,
        label,
        opts.shared,
        pid,
        since_epoch,
        last,
    ) {
        WriteStep::Ask { stage, action } => Step {
            phase: Phase::Wrap(WrapPhase::Writing { progress: stage, pid, since_epoch }),
            action,
        },
        WriteStep::Finished { guard } => Step {
            phase: Phase::Wrap(WrapPhase::Running { guard }),
            action: Action::Spawn {
                program: opts.command[0].clone(),
                args: rest_of(&opts.command),
            },
        },
    }
}

fn release(opts: &Opts, guard: Option<Guard>, code: i32) -> (step: RunStep)
    requires
        opts@.command.len() > 0,
        !opts@.unlock,
    ensures
        step.deep_view() == release_step(guard.deep_view(), code),
        is_sound(opts@, step.deep_view()),
{
    match guard {
        Some(held) => Step {
            phase: Phase::Wrap(WrapPhase::Removing { code }),
            action: held.removal(),
        },
        None => Step { phase: Phase::Wrap(WrapPhase::Closing { code }), action: Action::Close },
    }
}

/// The line for a lock that was refused, given what reading the sidecar brought.
fn refusal(contents: Option<&str>) -> (line: String)
    ensures
        line@ == refused_line(
            match contents {
                Some(text) => summary_of(text@),
                None => None,
            },
        ),
{
    match &read(contents) {
        Some(account) => refused(Some(account.as_str())),
        None => refused(None),
    }
}

/// Takes wrap mode one step further, from a phase and what came of it.
pub(crate) fn run_wrap_mode(opts: &Opts, phase: WrapPhase<Guard>, event: Event<String>) -> (step: RunStep)
    requires
        in_course(opts@, Phase::Wrap(phase.deep_view())),
        answers(awaited_in(opts@, Phase::Wrap(phase.deep_view())), event),
    ensures
        step.deep_view() == wrap_step(opts@, phase.deep_view(), event.deep_view()),
        is_sound(opts@, step.deep_view()),
{
    match phase {
        WrapPhase::OpeningWritable => open_lockfile(opts, Some((true, event))),
        WrapPhase::OpeningReadOnly => open_lockfile(opts, Some((false, event))),
        WrapPhase::StartingTimer => file_acquire(opts, None),
        WrapPhase::Acquiring { stage } => file_acquire(opts, Some((stage, event))),
        WrapPhase::FindingHolder => {
            let line = match &event {
                Event::Contents(Some(text)) => refusal(Some(text.as_str())),
                Event::Contents(None) => refusal(None),
                _ => unreached(),
            };
            leave_saying(line, opts.conflict_exit_code)
        },
        WrapPhase::ReadingTimer => {
            let line = match &event {
                Event::Seconds(seconds) => acquired(seconds.as_str()),
                _ => unreached(),
            };
            Step { phase: Phase::Wrap(WrapPhase::Reporting), action: Action::Print { line } }
        },
        WrapPhase::Reporting => Step {
            phase: Phase::Wrap(WrapPhase::Identifying),
            action: Action::Identify,
        },
        WrapPhase::Identifying => match event {
            Event::Identity { pid, since_epoch } => publish(opts, pid, since_epoch, None),
            _ => unreached(),
        },
        WrapPhase::Writing { progress, pid, since_epoch } => {
            let done = matches!(event, Event::Done);
            publish(opts, pid, since_epoch, Some((progress, done)))
        },
        WrapPhase::Running { guard } => match event {
            Event::NotSpawned { fault: reason, cause } => Step {
                phase: Phase::Wrap(
                    WrapPhase::ReportingFault { guard, code: exit_code_of_fault(reason) },
                ),
                action: Action::Print { line: fault(opts.command[0].as_str(), cause.as_str()) },
            },
            Event::Ended { code, signal } => release(opts, guard, exit_code_of(code, signal)),
            _ => unreached(),
        },
        WrapPhase::ReportingFault { guard, code } => release(opts, guard, code),
        WrapPhase::Removing { code } => release(opts, None, code),
        WrapPhase::Closing { code } => leave_with(code),
    }
}

/// The first step of a run. `descriptors` tells whether the platform has descriptors to
/// lock.
pub(crate) fn run(opts: &Opts, descriptors: bool) -> (step: RunStep)
    ensures
        step.deep_view() == first_step(opts@, descriptors),
        is_sound(opts@, step.deep_view()),
{
    if opts.command.len() == 0 {
        if !descriptors {
            return leave_saying(no_descriptors(), EXIT_INTERNAL_ERROR);
        }
        match parse_descriptor(opts.target.as_str()) {
            Some(fd) => run_fd_mode(opts, fd, None),
            None => leave_saying(
                not_a_descriptor(opts.target.as_str()),
                EXIT_INTERNAL_ERROR,
            ),
        }
    } else if opts.unlock {
        leave_saying(unlock_misused(), EXIT_INTERNAL_ERROR)
    } else {
        open_lockfile(opts, None)
    }
}

/// The step that follows a phase, given what came of it.
pub(crate) fn resume(opts: &Opts, phase: Phase<Guard>, event: Event<String>) -> (step: RunStep)
    requires
        in_course(opts@, phase.deep_view()),
        answers(awaited_in(opts@, phase.deep_view()), event),
    ensures
        step.deep_view() == next_step(opts@, phase.deep_view(), event.deep_view()),
        is_sound(opts@, step.deep_view()),
{
    match phase {
        Phase::Wrap(wrap) => run_wrap_mode(opts, wrap, event),
        Phase::Fd { fd, phase: fd_phase } => run_fd_mode(opts, fd, Some((fd_phase, event))),
        Phase::Leaving { code } => leave_with(code),
        Phase::Exited { code } => leave_with(code),
    }
}

/// A run under way: the options, the phase it is in, and the kind of answer that
/// it waits for.
pub struct Run {
    opts: Opts,
    phase: Phase<Guard>,
    awaited: Query,
}

impl Run {
    /// The phase is one that a run with these options can come to.
    #[verifier::type_invariant]
    spec fn is_under_way(self) -> bool {
        &&& in_course(self.opts@, self.phase.deep_view())
        &&& self.awaited == awaited_in(self.opts@, self.phase.deep_view())
    }

    /// The options of the run.
    pub closed spec fn opts(self) -> OptsView {
        self.opts@
    }

    /// The phase that the run is in.
    pub closed spec fn phase(self) -> PhaseView {
        self.phase.deep_view()
    }

    /// Begins a run, and gives the first thing that it asks for. `descriptors`
    /// tells whether the platform has descriptors to lock.
    pub fn begin(opts: Opts, descriptors: bool) -> (begun: (Run, Action<String, Vec<String>>))
        ensures
            begun.0.opts() == opts@,
            (StepView { phase: begun.0.phase(), action: begun.1.deep_view() }) == first_step(
                opts@,
                descriptors,
            ),
            query_of(begun.1) == awaited_in(opts@, begun.0.phase()),
    {
        let step = run(&opts, descriptors);
        let awaited = query(&step.action);
        (Run { opts, phase: step.phase, awaited }, step.action)
    }

    /// Carries a run on, given what came of the last thing that it asked for, and
    /// gives the next. Where that is no answer to the request, run and event are
    /// given back as they were.
    pub fn resume(self, event: Event<String>) -> (resumed: Result<
        (Run, Action<String, Vec<String>>),
        (Run, Event<String>),
    >)
        ensures
            match resumed {
                Ok((run, action)) => {
                    &&& answers(awaited_in(self.opts(), self.phase()), event)
                    &&& run.opts() == self.opts()
                    &&& (StepView { phase: run.phase(), action: action.deep_view() }) == next_step(
                        self.opts(),
                        self.phase(),
                        event.deep_view(),
                    )
                    &&& query_of(action) == awaited_in(run.opts(), run.phase())
                },
                Err((run, returned)) => {
                    &&& !answers(awaited_in(self.opts(), self.phase()), event)
                    &&& run == self
                    &&& returned == event
                },
            },
    {
        proof {
            use_type_invariant(&self);
        }
        if !is_answer(self.awaited, &event) {
            return Err((self, event));
        }
        let Run { opts, phase, awaited: _ } = self;
        let step = resume(&opts, phase, event);
        let awaited = query(&step.action);
        Ok((Run { opts, phase: step.phase, awaited }, step.action))
    }

    /// The options of the run.
    pub fn options(&self) -> (opts: &Opts)
        ensures
            opts@ == self.opts(),
    {
        &self.opts
    }
}

} // verus!
