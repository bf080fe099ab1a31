//! What holds of every run, whatever it is told on the way.

use vstd::prelude::*;

#[allow(unused_imports)]
use crate::acquire::Stage;
#[allow(unused_imports)]
use crate::action::{
    answers, query_of, Action, ActionView, Event, EventView, SpawnFault, Target,
};
#[allow(unused_imports)]
use crate::descriptor::descriptor_of;
#[allow(unused_imports)]
use crate::exit::is_unix_end;
#[allow(unused_imports)]
use crate::holder::{
    contents_of, fits_one_line, sidecar_is_not_the_lockfile, sidecar_path_of, sidecar_reads_back,
    temp_file_is_apart, temp_path_of, Writing,
};
#[allow(unused_imports)]
use crate::options::OptsView;
#[allow(unused_imports)]
use crate::paths::file_name_of;
#[allow(unused_imports)]
use crate::run::{
    awaited_in, first_step, in_course, is_sound, next_step, read_only, writable, FdPhase, Phase,
    PhaseView, StepView, WrapPhase,
};
#[allow(unused_imports)]
use crate::text::decimal;

verus! {

/// A run as it may go: `steps` holds what was asked for, one after the other,
/// and `events` what came of all but the last.
pub struct Course {
    pub steps: Seq<StepView>,
    pub events: Seq<EventView>,
}

/// Whether a course is one that a run with these options can take.
pub open spec fn is_course(opts: OptsView, descriptors: bool, course: Course) -> bool {
    &&& course.steps.len() == course.events.len() + 1
    &&& course.steps[0] == first_step(opts, descriptors)
    &&& forall|i: int|
        #![trigger course.events[i]]
        0 <= i < course.events.len() ==> {
            &&& answers(query_of(course.steps[i].action), course.events[i])
            &&& course.steps[i + 1] == next_step(opts, course.steps[i].phase, course.events[i])
        }
}

/// A course without its last step.
pub open spec fn before_last(course: Course) -> Course {
    Course { steps: course.steps.drop_last(), events: course.events.drop_last() }
}

proof fn lemma_before_last(opts: OptsView, descriptors: bool, course: Course)
    requires
        is_course(opts, descriptors, course),
        course.events.len() > 0,
    ensures
        is_course(opts, descriptors, before_last(course)),
{
    let shorter = before_last(course);
    assert forall|i: int|
        #![trigger shorter.events[i]]
        0 <= i < shorter.events.len() implies {
        &&& answers(query_of(shorter.steps[i].action), shorter.events[i])
        &&& shorter.steps[i + 1] == next_step(opts, shorter.steps[i].phase, shorter.events[i])
    } by {
        assert(shorter.events[i] == course.events[i]);
    }
}

/// Every step of a run is sound, whatever answers it gets.
pub proof fn every_step_is_sound(opts: OptsView, descriptors: bool, course: Course, k: int)
    requires
        is_course(opts, descriptors, course),
        0 <= k < course.steps.len(),
    ensures
        is_sound(opts, course.steps[k]),
    decreases k,
{
    if k > 0 {
        every_step_is_sound(opts, descriptors, course, k - 1);
        assert(answers(query_of(course.steps[k - 1].action), course.events[k - 1]));
        lemma_next_is_sound(opts, course.steps[k - 1].phase, course.events[k - 1]);
    }
}

pub(crate) proof fn lemma_next_is_sound(opts: OptsView, phase: PhaseView, event: EventView)
    requires
        in_course(opts, phase),
        answers(awaited_in(opts, phase), event),
    ensures
        is_sound(opts, next_step(opts, phase, event)),
{
}

/// An upper bound on the steps that still lie ahead.
pub open spec fn steps_ahead(phase: PhaseView) -> nat {
    let of_stage = |stage: Stage|
        match stage {
            Stage::Trying => 14nat,
            Stage::Looking => 13,
            Stage::Announcing => 12,
            Stage::Waiting => 11,
        };
    match phase {
        Phase::Wrap(wrap) => match wrap {
            WrapPhase::OpeningWritable => 17,
            WrapPhase::OpeningReadOnly => 16,
            WrapPhase::StartingTimer => 15,
            WrapPhase::Acquiring { stage } => of_stage(stage),
            WrapPhase::FindingHolder => 10,
            WrapPhase::ReadingTimer => 10,
            WrapPhase::Reporting => 9,
            WrapPhase::Identifying => 8,
            WrapPhase::Writing { progress: Writing::Preparing, .. } => 7,
            WrapPhase::Writing { progress: Writing::Moving, .. } => 6,
            WrapPhase::Writing { progress: Writing::Discarding, .. } => 5,
            WrapPhase::Running { .. } => 4,
            WrapPhase::ReportingFault { .. } => 3,
            WrapPhase::Removing { .. } => 2,
            WrapPhase::Closing { .. } => 1,
        },
        Phase::Fd { phase: FdPhase::Acquiring { stage }, .. } => of_stage(stage),
        Phase::Fd { phase: FdPhase::Unlocking, .. } => 11,
        Phase::Leaving { .. } => 1,
        Phase::Exited { .. } => 0,
    }
}

proof fn lemma_fewer_ahead(opts: OptsView, phase: PhaseView, event: EventView)
    requires
        in_course(opts, phase),
        answers(awaited_in(opts, phase), event),
    ensures
        steps_ahead(next_step(opts, phase, event).phase) < steps_ahead(phase),
{
}

/// Every run comes to an end: it asks for at most 18 things, and the only one
/// after which it asks for nothing more is to exit.
pub proof fn every_run_ends(opts: OptsView, descriptors: bool, course: Course)
    requires
        is_course(opts, descriptors, course),
    ensures
        course.events.len() + steps_ahead(course.steps.last().phase) <= 17,
        steps_ahead(course.steps.last().phase) == 0 <==> course.steps.last().action is Exit,
    decreases course.events.len(),
{
    every_step_is_sound(opts, descriptors, course, course.steps.len() - 1);
    if course.events.len() > 0 {
        let shorter = before_last(course);
        let k = course.events.len() - 1;
        lemma_before_last(opts, descriptors, course);
        every_run_ends(opts, descriptors, shorter);
        every_step_is_sound(opts, descriptors, course, k);
        assert(shorter.steps.last() == course.steps[k]);
        assert(answers(query_of(course.steps[k].action), course.events[k]));
        lemma_fewer_ahead(opts, course.steps[k].phase, course.events[k]);
    }
}

/// Whether an action asks for the lock on `target`, shared or exclusive.
pub open spec fn asks_for_lock(action: ActionView, target: Target, shared: bool) -> bool {
    match action {
        Action::TryLock { target: on, shared: kind } => on == target && kind == shared,
        Action::Lock { target: on, shared: kind } => on == target && kind == shared,
        Action::LockWithin { target: on, shared: kind, .. } => on == target && kind == shared,
        _ => false,
    }
}

/// Whether the lock was granted in answer to the `i`th request.
pub open spec fn granted_at(opts: OptsView, course: Course, target: Target, i: int) -> bool {
    &&& 0 <= i < course.events.len()
    &&& asks_for_lock(course.steps[i].action, target, opts.shared)
    &&& course.events[i] is Done
}

/// Whether an action gives up a lock.
pub open spec fn gives_up(action: ActionView) -> bool {
    action is Close || action is Unlock || action is Exit
}

/// Whether an action leaves the locks as they are.
pub open spec fn is_keeping(action: ActionView) -> bool {
    !gives_up(action) && !(action is TryLock) && !(action is Lock) && !(action is LockWithin)
}

/// Whether the lock on `target` is held when the `k`th request is made: it was
/// granted before, as the options wanted it, and not given up since.
pub open spec fn held_at(opts: OptsView, course: Course, target: Target, k: int) -> bool {
    exists|i: int|
        {
            &&& i < k
            &&& #[trigger] granted_at(opts, course, target, i)
            &&& forall|j: int| i < j <= k ==> !gives_up((#[trigger] course.steps[j]).action)
        }
}

/// The phases between the lock's being granted and its being given up.
pub open spec fn is_holding(phase: PhaseView) -> bool {
    match phase {
        Phase::Wrap(wrap) => match wrap {
            WrapPhase::ReadingTimer | WrapPhase::Reporting | WrapPhase::Identifying
            | WrapPhase::Writing { .. } | WrapPhase::Running { .. }
            | WrapPhase::ReportingFault { .. } | WrapPhase::Removing { .. } => true,
            _ => false,
        },
        _ => false,
    }
}

/// How a run comes to hold the lock, and that a phase of holding asks for
/// nothing that gives it up.
pub(crate) proof fn lemma_into_holding(opts: OptsView, step: StepView, event: EventView)
    requires
        is_sound(opts, step),
        answers(query_of(step.action), event),
        is_holding(next_step(opts, step.phase, event).phase),
    ensures
        is_keeping(next_step(opts, step.phase, event).action),
        is_holding(step.phase) || (asks_for_lock(step.action, Target::File, opts.shared)
            && event is Done),
{
}

/// Every request for the lock is for the lock that the options want: on the
/// target, and exclusive unless `-s` was given.
pub proof fn lock_is_the_one_wanted(opts: OptsView, descriptors: bool, course: Course, k: int)
    requires
        is_course(opts, descriptors, course),
        0 <= k < course.steps.len(),
    ensures
        ({
            let action = course.steps[k].action;
            action is TryLock || action is Lock || action is LockWithin ==> {
                let target = if opts.command.len() > 0 {
                    Target::File
                } else {
                    Target::Descriptor(descriptor_of(opts.target)->0 as i32)
                };
                asks_for_lock(action, target, opts.shared)
            }
        }),
{
    every_step_is_sound(opts, descriptors, course, k);
    if k > 0 {
        every_step_is_sound(opts, descriptors, course, k - 1);
        assert(answers(query_of(course.steps[k - 1].action), course.events[k - 1]));
    }
}

/// What a command that is run has to do with the phases and the options.
proof fn lemma_spawning(opts: OptsView, descriptors: bool, course: Course, k: int)
    requires
        is_course(opts, descriptors, course),
        0 <= k < course.steps.len(),
        course.steps[k].action is Spawn,
    ensures
        k > 0,
        is_holding(course.steps[k].phase),
        course.steps[k].action == (ActionView::Spawn {
            program: opts.command[0],
            args: opts.command.skip(1),
        }),
{
    if k > 0 {
        every_step_is_sound(opts, descriptors, course, k - 1);
        assert(answers(query_of(course.steps[k - 1].action), course.events[k - 1]));
    }
}

/// A lock that is held, or is granted now, is held at the next request that does
/// not give it up.
proof fn lemma_held_on(opts: OptsView, course: Course, target: Target, k: int)
    requires
        0 < k,
        held_at(opts, course, target, k - 1) || granted_at(opts, course, target, k - 1),
        !gives_up(course.steps[k].action),
    ensures
        held_at(opts, course, target, k),
{
    if granted_at(opts, course, target, k - 1) {
        assert(forall|j: int| k - 1 < j <= k ==> !gives_up((#[trigger] course.steps[j]).action));
    } else {
        let i = choose|i: int|
            {
                &&& i < k - 1
                &&& #[trigger] granted_at(opts, course, target, i)
                &&& forall|j: int|
                    i < j <= k - 1 ==> !gives_up((#[trigger] course.steps[j]).action)
            };
        assert(granted_at(opts, course, target, i));
    }
}

/// In a phase of holding the lock is held.
proof fn lemma_holding(opts: OptsView, descriptors: bool, course: Course, k: int)
    requires
        is_course(opts, descriptors, course),
        0 <= k < course.steps.len(),
        is_holding(course.steps[k].phase),
    ensures
        held_at(opts, course, Target::File, k),
    decreases k,
{
    if k > 0 {
        assert(answers(query_of(course.steps[k - 1].action), course.events[k - 1]));
        every_step_is_sound(opts, descriptors, course, k - 1);
        lemma_into_holding(opts, course.steps[k - 1], course.events[k - 1]);
        if is_holding(course.steps[k - 1].phase) {
            lemma_holding(opts, descriptors, course, k - 1);
        }
        lemma_held_on(opts, course, Target::File, k);
    }
}

/// The lock is held in every phase of holding; the command runs in one. So the
/// command runs only while the lock is held, and it is the command that was
/// given.
pub proof fn command_runs_under_the_lock(
    opts: OptsView,
    descriptors: bool,
    course: Course,
    k: int,
)
    requires
        is_course(opts, descriptors, course),
        0 <= k < course.steps.len(),
    ensures
        is_holding(course.steps[k].phase) ==> held_at(opts, course, Target::File, k),
        course.steps[k].action is Spawn ==> {
            &&& held_at(opts, course, Target::File, k)
            &&& course.steps[k].action == (ActionView::Spawn {
                program: opts.command[0],
                args: opts.command.skip(1),
            })
        },
{
    if course.steps[k].action is Spawn {
        lemma_spawning(opts, descriptors, course, k);
    }
    if is_holding(course.steps[k].phase) {
        lemma_holding(opts, descriptors, course, k);
    }
}

/// The lock, once held, is held until the lock file is closed. That comes only
/// after the command, and after the sidecar was removed where there is one; then
/// the process exits.
pub proof fn lock_is_held_until_after_the_command(
    opts: OptsView,
    descriptors: bool,
    course: Course,
    k: int,
)
    requires
        is_course(opts, descriptors, course),
        0 <= k < course.events.len(),
    ensures
        ({
            let now = course.steps[k];
            let next = course.steps[k + 1];
            &&& is_holding(now.phase) && !is_holding(next.phase) ==> {
                &&& next.action is Close
                &&& now.phase matches Phase::Wrap(wrap) && match wrap {
                    WrapPhase::Running { guard } => guard is None,
                    WrapPhase::ReportingFault { guard, .. } => guard is None,
                    WrapPhase::Removing { .. } => now.action == (ActionView::RemoveFile {
                        path: sidecar_path_of(opts.target, opts.rules),
                    }),
                    _ => false,
                }
            }
            &&& now.action is Close ==> next.action is Exit
        }),
{
    every_step_is_sound(opts, descriptors, course, k);
    every_step_is_sound(opts, descriptors, course, k + 1);
    assert(answers(query_of(course.steps[k].action), course.events[k]));
    if k > 0 {
        every_step_is_sound(opts, descriptors, course, k - 1);
        assert(answers(query_of(course.steps[k - 1].action), course.events[k - 1]));
    }
}

/// Whether the options cannot be served at all: `-u` with a command, or a target
/// without a command that is no descriptor to lock.
pub open spec fn is_misuse(opts: OptsView, descriptors: bool) -> bool {
    if opts.command.len() > 0 {
        opts.unlock
    } else {
        !descriptors || descriptor_of(opts.target) is None
    }
}

/// Whether the options leave time to wait for a lock that is held: no `-n`, and no
/// timeout but a positive number, whose bits are above 0 and no more than those of
/// infinity.
pub open spec fn leaves_time(opts: OptsView) -> bool {
    !opts.nonblock && match opts.timeout {
        Some(bits) => 0 < bits <= 0x7ff0_0000_0000_0000,
        None => true,
    }
}

/// The exit code that the answer to a request settles, where it settles one.
///
/// - A command's end: the command's code, or 128 plus the signal's number.
/// - A command that cannot be found, 127, or executed, 126.
/// - A lock that cannot be had under `-n` or `-w`: the conflict exit code.
/// - A descriptor locked or unlocked: 0.
/// - Anything else that goes wrong with opening, locking or unlocking: 125.
pub open spec fn verdict(opts: OptsView, action: ActionView, event: EventView) -> Option<int> {
    let done = |target: Target|
        if target == Target::File {
            None
        } else {
            Some(0int)
        };
    match (action, event) {
        (Action::Spawn { .. }, Event::Ended { code: Some(own), .. }) => Some(own as int),
        (Action::Spawn { .. }, Event::Ended { code: None, signal: Some(number) }) => Some(
            128 + number,
        ),
        (Action::Spawn { .. }, Event::Ended { code: None, signal: None }) => Some(126int),
        (Action::Spawn { .. }, Event::NotSpawned { fault: SpawnFault::NotFound, .. }) => Some(
            127int,
        ),
        (Action::Spawn { .. }, Event::NotSpawned { .. }) => Some(126int),
        (Action::TryLock { target, .. }, Event::Done) => done(target),
        (Action::Lock { target, .. }, Event::Done) => done(target),
        (Action::LockWithin { target, .. }, Event::Done) => done(target),
        (Action::TryLock { .. }, Event::WouldBlock) => if leaves_time(opts) {
            None
        } else {
            Some(opts.conflict_exit_code as int)
        },
        (Action::LockWithin { .. }, Event::TimedOut) => Some(opts.conflict_exit_code as int),
        (Action::LockWithin { .. }, Event::Disconnected) => Some(opts.conflict_exit_code as int),
        (Action::LockWithin { .. }, Event::NotCloned(_)) => Some(125int),
        (Action::LockWithin { .. }, Event::NoThread(_)) => Some(125int),
        (Action::TryLock { .. }, Event::Failed(_)) => Some(125int),
        (Action::Lock { .. }, Event::Failed(_)) => Some(125int),
        (Action::LockWithin { .. }, Event::Failed(_)) => Some(125int),
        (Action::Open { mode, .. }, Event::Failed(_)) => if mode.write {
            None
        } else {
            Some(125int)
        },
        (Action::Unlock { .. }, Event::Done) => Some(0),
        (Action::Unlock { .. }, Event::Failed(_)) => Some(125int),
        _ => None,
    }
}

/// The exit code that is settled in a phase.
pub open spec fn settled(opts: OptsView, phase: PhaseView) -> Option<int> {
    match phase {
        Phase::Wrap(wrap) => match wrap {
            WrapPhase::FindingHolder => Some(opts.conflict_exit_code as int),
            WrapPhase::ReportingFault { code, .. } => Some(code as int),
            WrapPhase::Removing { code } => Some(code as int),
            WrapPhase::Closing { code } => Some(code as int),
            _ => None,
        },
        Phase::Fd { .. } => None,
        Phase::Leaving { code } => Some(code as int),
        Phase::Exited { code } => Some(code as int),
    }
}

/// What a step of a run asks for, phase by phase.
pub open spec fn asks_in_kind(opts: OptsView, step: StepView) -> bool {
    match step.phase {
        Phase::Wrap(wrap) => match wrap {
            WrapPhase::OpeningWritable => step.action == (ActionView::Open {
                path: opts.target,
                mode: writable(),
            }),
            WrapPhase::OpeningReadOnly => step.action == (ActionView::Open {
                path: opts.target,
                mode: read_only(),
            }),
            WrapPhase::Writing { progress, pid, .. } => {
                let temp = temp_path_of(opts.target, pid as nat, opts.rules);
                match progress {
                    Writing::Preparing => step.action matches Action::WriteFile { path, .. } && path
                        == temp,
                    Writing::Moving => step.action == (ActionView::Rename {
                        from: temp,
                        to: sidecar_path_of(opts.target, opts.rules),
                    }),
                    Writing::Discarding => step.action == (ActionView::RemoveFile { path: temp }),
                }
            },
            WrapPhase::Removing { .. } => step.action == (ActionView::RemoveFile {
                path: sidecar_path_of(opts.target, opts.rules),
            }),
            WrapPhase::FindingHolder | WrapPhase::Acquiring { stage: Stage::Looking } => step.action
                == (ActionView::ReadFile { path: sidecar_path_of(opts.target, opts.rules) }),
            _ => true,
        },
        Phase::Fd { fd, phase: FdPhase::Unlocking } => step.action == (ActionView::Unlock { fd }),
        Phase::Exited { code } => step.action == (ActionView::Exit { code }),
        _ => true,
    }
}

proof fn lemma_asks_in_kind(opts: OptsView, descriptors: bool, course: Course, k: int)
    requires
        is_course(opts, descriptors, course),
        0 <= k < course.steps.len(),
    ensures
        asks_in_kind(opts, course.steps[k]),
{
    if k > 0 {
        every_step_is_sound(opts, descriptors, course, k - 1);
        assert(answers(query_of(course.steps[k - 1].action), course.events[k - 1]));
    }
}

proof fn lemma_settling(opts: OptsView, step: StepView, event: EventView)
    requires
        is_sound(opts, step),
        asks_in_kind(opts, step),
        answers(query_of(step.action), event),
    ensures
        ({
            let next = next_step(opts, step.phase, event);
            match settled(opts, step.phase) {
                Some(code) => settled(opts, next.phase) == Some(code) && verdict(
                    opts,
                    step.action,
                    event,
                ) is None,
                None => settled(opts, next.phase) == verdict(opts, step.action, event),
            }
        }),
{
}

/// A wait that ran out settles the conflict exit code, and what is settled stays.
pub(crate) proof fn lemma_time_out_settles(opts: OptsView, step: StepView, event: EventView)
    requires
        is_sound(opts, step),
        answers(query_of(step.action), event),
    ensures
        ({
            let next = settled(opts, next_step(opts, step.phase, event).phase);
            &&& event is TimedOut ==> next == Some(opts.conflict_exit_code as int)
            &&& settled(opts, step.phase) is Some ==> next == settled(opts, step.phase)
        }),
{
}

/// A code that is settled once stays: where each of `codes` follows from the one
/// before it and from what was said then, the last is the first, or the one
/// thing that was said.
proof fn lemma_settled_once(codes: Seq<Option<int>>, said: Seq<Option<int>>)
    requires
        codes.len() == said.len() + 1,
        forall|i: int|
            #![trigger said[i]]
            0 <= i < said.len() ==> match codes[i] {
                Some(code) => codes[i + 1] == Some(code) && said[i] is None,
                None => codes[i + 1] == said[i],
            },
    ensures
        codes.last() matches Some(code) ==> codes[0] == Some(code) || said.contains(Some(code)),
        forall|i: int|
            0 <= i < said.len() ==> (#[trigger] said[i] is None || said[i] == codes.last()),
    decreases said.len(),
{
    if said.len() > 0 {
        let earlier = said.drop_last();
        let earlier_codes = codes.drop_last();
        assert forall|i: int|
            #![trigger earlier[i]]
            0 <= i < earlier.len() implies match earlier_codes[i] {
            Some(code) => earlier_codes[i + 1] == Some(code) && earlier[i] is None,
            None => earlier_codes[i + 1] == earlier[i],
        } by {
            assert(earlier[i] == said[i]);
        }
        lemma_settled_once(earlier_codes, earlier);
        let k = said.len() - 1;
        assert(said[k] == said.last());
        assert forall|i: int| 0 <= i < said.len() implies (#[trigger] said[i] is None || said[i]
            == codes.last()) by {
            if i < k {
                assert(earlier[i] == said[i]);
            }
        }
        if let Some(code) = codes.last() {
            if codes[k] is Some {
                if earlier.contains(Some(code)) {
                    let i = choose|i: int| 0 <= i < earlier.len() && earlier[i] == Some(code);
                    assert(said[i] == Some(code));
                }
            }
        }
    }
}

/// The exit code is the one that was settled on the way: by misuse, or by the
/// answer to some request; and no answer on the way settles any other.
pub proof fn exit_code_is_the_one_settled(
    opts: OptsView,
    descriptors: bool,
    course: Course,
    code: i32,
)
    requires
        is_course(opts, descriptors, course),
        course.steps.last().action == (ActionView::Exit { code }),
    ensures
        is_misuse(opts, descriptors) && code == 125 || exists|i: int|
            0 <= i < course.events.len() && verdict(
                opts,
                course.steps[i].action,
                #[trigger] course.events[i],
            ) == Some(code as int),
        forall|i: int|
            0 <= i < course.events.len() ==> {
                let said = verdict(opts, course.steps[i].action, #[trigger] course.events[i]);
                said is None || said == Some(code as int)
            },
{
    let k = course.steps.len() - 1;
    let codes = course.steps.map_values(|step: StepView| settled(opts, step.phase));
    let said = Seq::new(
        course.events.len(),
        |i: int| verdict(opts, course.steps[i].action, course.events[i]),
    );
    assert forall|i: int|
        #![trigger said[i]]
        0 <= i < said.len() implies match codes[i] {
        Some(settled_code) => codes[i + 1] == Some(settled_code) && said[i] is None,
        None => codes[i + 1] == said[i],
    } by {
        every_step_is_sound(opts, descriptors, course, i);
        lemma_asks_in_kind(opts, descriptors, course, i);
        assert(answers(query_of(course.steps[i].action), course.events[i]));
        lemma_settling(opts, course.steps[i], course.events[i]);
    }
    lemma_settled_once(codes, said);
    assert(codes.last() == Some(code as int)) by {
        every_step_is_sound(opts, descriptors, course, k);
        lemma_asks_in_kind(opts, descriptors, course, k);
    }
    assert(codes[0] == Some(code as int) ==> is_misuse(opts, descriptors) && code
        == 125);
    if said.contains(Some(code as int)) {
        let i = choose|i: int| 0 <= i < said.len() && said[i] == Some(code as int);
        assert(verdict(opts, course.steps[i].action, course.events[i]) == Some(code as int));
    }
    assert forall|i: int| 0 <= i < course.events.len() implies {
        let word = verdict(opts, course.steps[i].action, #[trigger] course.events[i]);
        word is None || word == Some(code as int)
    } by {
        assert(said[i] is None || said[i] == codes.last());
    }
}

/// Whether a path is that of the sidecar, or one under which some process prepares
/// it.
pub open spec fn is_sidecar_path(opts: OptsView, path: Seq<char>) -> bool {
    ||| path == sidecar_path_of(opts.target, opts.rules)
    ||| exists|pid: nat| path == #[trigger] temp_path_of(opts.target, pid, opts.rules)
}

/// Whether a path names an entry with another name than the lock file's.
pub open spec fn is_apart(opts: OptsView, path: Seq<char>) -> bool {
    path != opts.target && file_name_of(path) != file_name_of(opts.target)
}

/// A command that is run decides: the run exits with the command's own code, or with
/// 128 more than the number of the signal that ended it. So it exits with 0 just if
/// the command's own code was 0, never for a signal or a failure. On Unix the exit
/// code is one byte.
pub proof fn success_is_the_commands_own(
    opts: OptsView,
    descriptors: bool,
    course: Course,
    k: int,
    code: i32,
)
    requires
        is_course(opts, descriptors, course),
        course.steps.last().action == (ActionView::Exit { code }),
        0 <= k < course.events.len(),
        course.steps[k].action is Spawn,
    ensures
        code == 0 <==> (course.events[k] matches Event::Ended { code: own, .. } && own == Some(
            0i32,
        )),
        match course.events[k] {
            Event::Ended { code: own, signal } => is_unix_end(own, signal) ==> 0 <= code <= 255,
            Event::NotSpawned { fault, .. } => code == if fault is NotFound {
                127i32
            } else {
                126i32
            },
            _ => false,
        },
        course.events[k] matches Event::Ended { code: own, signal } ==> match (own, signal) {
            (Some(number), _) => code == number,
            (None, Some(number)) => code - 128 == number,
            (None, None) => code == 126,
        },
{
    exit_code_is_the_one_settled(opts, descriptors, course, code);
    every_step_is_sound(opts, descriptors, course, k);
    assert(answers(query_of(course.steps[k].action), course.events[k]));
}

/// A run with a command that exits with 0 has run that command, and the command
/// succeeded. The one exception is a refused lock where 0 is the exit code that
/// was asked for in that case.
pub proof fn zero_means_that_the_command_succeeded(
    opts: OptsView,
    descriptors: bool,
    course: Course,
)
    requires
        is_course(opts, descriptors, course),
        course.steps.last().action == (ActionView::Exit { code: 0 }),
        opts.command.len() > 0,
        opts.conflict_exit_code != 0,
    ensures
        exists|k: int|
            {
                &&& 0 <= k < course.events.len()
                &&& course.steps[k].action is Spawn
                &&& #[trigger] course.events[k] matches Event::Ended { code, .. }
                &&& code == Some(0i32)
            },
{
    exit_code_is_the_one_settled(opts, descriptors, course, 0);
    let k = choose|k: int|
        0 <= k < course.events.len() && verdict(
            opts,
            course.steps[k].action,
            #[trigger] course.events[k],
        ) == Some(0int);
    every_step_is_sound(opts, descriptors, course, k);
    lock_is_the_one_wanted(opts, descriptors, course, k);
    lemma_asks_in_kind(opts, descriptors, course, k);
    assert(answers(query_of(course.steps[k].action), course.events[k]));
    if k > 0 {
        every_step_is_sound(opts, descriptors, course, k - 1);
        assert(answers(query_of(course.steps[k - 1].action), course.events[k - 1]));
    }
}

/// The lock file is opened without being truncated, and what is written, moved or
/// removed is the sidecar and the temporary file it is prepared in. By the rules
/// of POSIX neither has the lock file's name: whatever else becomes of the run,
/// the lock file keeps what it holds and stays where it is.
pub proof fn lock_file_is_left_alone(opts: OptsView, descriptors: bool, course: Course, k: int)
    requires
        is_course(opts, descriptors, course),
        0 <= k < course.steps.len(),
    ensures
        match course.steps[k].action {
            Action::Open { path, mode } => path == opts.target && !mode.truncate,
            Action::WriteFile { path, .. } => is_sidecar_path(opts, path),
            Action::Rename { from, to } => is_sidecar_path(opts, from) && is_sidecar_path(opts, to),
            Action::RemoveFile { path } => is_sidecar_path(opts, path),
            _ => true,
        },
        opts.rules.is_posix() ==> match course.steps[k].action {
            Action::WriteFile { path, .. } => is_apart(opts, path),
            Action::Rename { from, to } => is_apart(opts, from) && is_apart(opts, to),
            Action::RemoveFile { path } => is_apart(opts, path),
            _ => true,
        },
{
    every_step_is_sound(opts, descriptors, course, k);
    lemma_asks_in_kind(opts, descriptors, course, k);
    if opts.rules.is_posix() {
        sidecar_is_not_the_lockfile(opts.target, opts.rules);
    }
    if let Phase::Wrap(WrapPhase::Writing { pid, .. }) = course.steps[k].phase {
        assert(is_sidecar_path(opts, temp_path_of(opts.target, pid as nat, opts.rules)));
        if opts.rules.is_posix() {
            temp_file_is_apart(opts.target, pid as nat, opts.rules);
        }
    }
}

/// With `-n`, or a timeout that is not a positive number, the lock is never
/// waited for.
pub proof fn no_wait_where_none_is_allowed(
    opts: OptsView,
    descriptors: bool,
    course: Course,
    k: int,
)
    requires
        is_course(opts, descriptors, course),
        0 <= k < course.steps.len(),
        !leaves_time(opts),
    ensures
        !(course.steps[k].action is Lock) && !(course.steps[k].action is LockWithin),
{
    if k > 0 {
        every_step_is_sound(opts, descriptors, course, k - 1);
        assert(answers(query_of(course.steps[k - 1].action), course.events[k - 1]));
    }
}

/// A wait has the limit that `-w` set, and none without it or where that is 2 to the
/// 64th power seconds or more. In particular a run without `-n` and `-w` is never told
/// that the lock could not be had in time.
pub proof fn wait_is_as_long_as_asked(opts: OptsView, descriptors: bool, course: Course, k: int)
    requires
        is_course(opts, descriptors, course),
        0 <= k < course.steps.len(),
    ensures
        match course.steps[k].action {
            Action::Lock { .. } => opts.timeout matches Some(bits) ==> bits
                >= 0x43f0_0000_0000_0000,
            Action::LockWithin { timeout, .. } => {
                &&& opts.timeout == Some(timeout)
                &&& 0 < timeout < 0x43f0_0000_0000_0000
            },
            _ => true,
        },
        !opts.nonblock && opts.timeout is None ==> !(course.steps[k].phase matches Phase::Wrap(
            WrapPhase::FindingHolder,
        )) && (k < course.events.len() ==> !(course.events[k] is TimedOut)
            && !(course.events[k] is Disconnected)),
{
    every_step_is_sound(opts, descriptors, course, k);
    if k > 0 {
        every_step_is_sound(opts, descriptors, course, k - 1);
        assert(answers(query_of(course.steps[k - 1].action), course.events[k - 1]));
    }
    if k < course.events.len() {
        assert(answers(query_of(course.steps[k].action), course.events[k]));
    }
}

/// Without `-v` nothing is looked up for a report, and nothing is printed but
/// that the program failed or that the command could not be started. A refused
/// lock is no failure.
pub proof fn quiet_unless_asked(opts: OptsView, descriptors: bool, course: Course, k: int)
    requires
        is_course(opts, descriptors, course),
        0 <= k < course.steps.len(),
        !opts.verbose,
    ensures
        match course.steps[k].action {
            Action::Print { .. } => match course.steps[k].phase {
                Phase::Leaving { code } => code == 125,
                Phase::Wrap(WrapPhase::ReportingFault { .. }) => true,
                _ => false,
            },
            Action::ReadFile { .. } | Action::ReadTimer => false,
            _ => true,
        },
{
    every_step_is_sound(opts, descriptors, course, k);
    if k > 0 {
        every_step_is_sound(opts, descriptors, course, k - 1);
        assert(answers(query_of(course.steps[k - 1].action), course.events[k - 1]));
    }
}

/// A descriptor is locked, or with `-u` unlocked, and otherwise left as it is: a
/// run in descriptor mode touches no file, runs nothing and closes nothing. So a
/// lock that it took is still held when it exits.
pub proof fn descriptor_lock_outlives_the_run(
    opts: OptsView,
    descriptors: bool,
    course: Course,
    k: int,
)
    requires
        is_course(opts, descriptors, course),
        0 <= k < course.steps.len(),
        opts.command.len() == 0,
    ensures
        match course.steps[k].action {
            Action::TryLock { target, .. } => target is Descriptor && !opts.unlock,
            Action::Lock { target, .. } => target is Descriptor && !opts.unlock,
            Action::LockWithin { target, .. } => target is Descriptor && !opts.unlock,
            Action::Unlock { fd } => opts.unlock && descriptor_of(opts.target) == Some(fd as int),
            Action::Print { .. } | Action::Exit { .. } => true,
            _ => false,
        },
{
    every_step_is_sound(opts, descriptors, course, k);
    if k > 0 {
        every_step_is_sound(opts, descriptors, course, k - 1);
        assert(answers(query_of(course.steps[k - 1].action), course.events[k - 1]));
    }
}

/// In descriptor mode the exit code tells whether the lock was got: a run that was
/// granted the lock exits with 0, so one that exits with anything else was granted
/// none; and one that exits with 0 was granted it, unless 0 is the exit code that
/// was asked for where it cannot be had.
pub proof fn descriptor_exit_code_tells_of_the_lock(
    opts: OptsView,
    descriptors: bool,
    course: Course,
    fd: i32,
    code: i32,
)
    requires
        is_course(opts, descriptors, course),
        course.steps.last().action == (ActionView::Exit { code }),
        opts.command.len() == 0,
        !opts.unlock,
        descriptor_of(opts.target) == Some(fd as int),
    ensures
        code != 0 ==> forall|i: int|
            !#[trigger] granted_at(opts, course, Target::Descriptor(fd), i),
        code == 0 && opts.conflict_exit_code != 0 ==> exists|i: int| #[trigger]
            granted_at(opts, course, Target::Descriptor(fd), i),
{
    exit_code_is_the_one_settled(opts, descriptors, course, code);
    if code == 0 && opts.conflict_exit_code != 0 {
        let k = choose|k: int|
            0 <= k < course.events.len() && verdict(
                opts,
                course.steps[k].action,
                #[trigger] course.events[k],
            ) == Some(0int);
        descriptor_lock_outlives_the_run(opts, descriptors, course, k);
        lock_is_the_one_wanted(opts, descriptors, course, k);
        assert(answers(query_of(course.steps[k].action), course.events[k]));
        assert(granted_at(opts, course, Target::Descriptor(fd), k));
    }
    if code != 0 {
        assert forall|i: int| !#[trigger] granted_at(opts, course, Target::Descriptor(fd), i) by {
            if granted_at(opts, course, Target::Descriptor(fd), i) {
                assert(verdict(opts, course.steps[i].action, course.events[i]) == Some(0int));
            }
        }
    }
}

/// Whether a phase is about the sidecar and nothing else.
pub open spec fn is_about_sidecar(phase: PhaseView) -> bool {
    match phase {
        Phase::Wrap(wrap) => match wrap {
            WrapPhase::Acquiring { stage: Stage::Looking } | WrapPhase::FindingHolder
            | WrapPhase::Writing { .. } | WrapPhase::Removing { .. } => true,
            _ => false,
        },
        _ => false,
    }
}

/// A phase but for the sidecar: one that is about the sidecar counts as the one
/// that comes after it, and a guard is left out.
pub open spec fn without_sidecar(opts: OptsView, phase: PhaseView) -> PhaseView {
    match phase {
        Phase::Wrap(wrap) => match wrap {
            WrapPhase::Acquiring { stage: Stage::Looking } => Phase::Wrap(
                WrapPhase::Acquiring { stage: Stage::Announcing },
            ),
            WrapPhase::FindingHolder => Phase::Leaving { code: opts.conflict_exit_code },
            WrapPhase::Writing { .. } | WrapPhase::Running { .. } => Phase::Wrap(
                WrapPhase::Running { guard: None },
            ),
            WrapPhase::ReportingFault { code, .. } => Phase::Wrap(
                WrapPhase::ReportingFault { guard: None, code },
            ),
            WrapPhase::Removing { code } => Phase::Wrap(WrapPhase::Closing { code }),
            _ => phase,
        },
        _ => phase,
    }
}

/// The sidecar has no say in a step. What is read from it changes no more than
/// the line that is printed; and whether writing it succeeds or not, the run goes
/// on, holding the lock, to the rest of the writing or to the command. But for the
/// sidecar itself, the run stays where it was.
pub proof fn sidecar_has_no_say(
    opts: OptsView,
    phase: PhaseView,
    event: EventView,
    other: EventView,
)
    requires
        in_course(opts, phase),
        is_about_sidecar(phase),
        answers(awaited_in(opts, phase), event),
        answers(awaited_in(opts, phase), other),
    ensures
        ({
            let one = next_step(opts, phase, event);
            let two = next_step(opts, phase, other);
            &&& without_sidecar(opts, one.phase) == without_sidecar(opts, phase)
            &&& if phase matches Phase::Wrap(WrapPhase::Writing { .. }) {
                &&& is_holding(one.phase)
                &&& is_about_sidecar(one.phase) || one.action is Spawn
            } else {
                &&& one.phase == two.phase
                &&& one.action == two.action || (one.action is Print && two.action is Print)
            }
        }),
{
}

/// A step that is not about the sidecar leads to the same, but for the sidecar,
/// wherever the sidecar stands.
proof fn lemma_elsewhere(opts: OptsView, phase: PhaseView, event: EventView)
    requires
        in_course(opts, phase),
        !is_about_sidecar(phase),
        answers(awaited_in(opts, phase), event),
    ensures
        without_sidecar(opts, next_step(opts, phase, event).phase) == without_sidecar(
            opts,
            next_step(opts, without_sidecar(opts, phase), event).phase,
        ),
{
}

/// What a run was told, but for what it was told about the sidecar.
pub open spec fn told_elsewhere(course: Course) -> Seq<EventView>
    decreases course.events.len(),
{
    if course.events.len() == 0 {
        Seq::empty()
    } else {
        let earlier = told_elsewhere(before_last(course));
        if is_about_sidecar(course.steps[course.events.len() - 1].phase) {
            earlier
        } else {
            earlier.push(course.events.last())
        }
    }
}

/// Where a run is, but for the sidecar, that has been told this and nothing about
/// the sidecar.
pub open spec fn phase_after(opts: OptsView, descriptors: bool, told: Seq<EventView>) -> PhaseView
    decreases told.len(),
{
    if told.len() == 0 {
        without_sidecar(opts, first_step(opts, descriptors).phase)
    } else {
        let before = phase_after(opts, descriptors, told.drop_last());
        without_sidecar(opts, next_step(opts, before, told.last()).phase)
    }
}

/// Where a run is, but for the sidecar, follows from what it was told about
/// anything but the sidecar.
pub proof fn sidecar_does_not_steer(opts: OptsView, descriptors: bool, course: Course)
    requires
        is_course(opts, descriptors, course),
    ensures
        without_sidecar(opts, course.steps.last().phase) == phase_after(
            opts,
            descriptors,
            told_elsewhere(course),
        ),
    decreases course.events.len(),
{
    if course.events.len() > 0 {
        let k = course.events.len() - 1;
        let shorter = before_last(course);
        let earlier = told_elsewhere(shorter);
        lemma_before_last(opts, descriptors, course);
        sidecar_does_not_steer(opts, descriptors, shorter);
        every_step_is_sound(opts, descriptors, course, k);
        assert(shorter.steps.last() == course.steps[k]);
        assert(answers(query_of(course.steps[k].action), course.events[k]));
        if is_about_sidecar(course.steps[k].phase) {
            sidecar_has_no_say(opts, course.steps[k].phase, course.events[k], course.events[k]);
        } else {
            lemma_elsewhere(opts, course.steps[k].phase, course.events[k]);
            assert(earlier.push(course.events.last()).drop_last() =~= earlier);
        }
    }
}

/// The sidecar has no say in the outcome: two runs with the same options that are
/// told the same about everything but the sidecar come to the same exit code,
/// whatever they are told about the sidecar.
pub proof fn sidecar_does_not_decide(
    opts: OptsView,
    descriptors: bool,
    one: Course,
    two: Course,
)
    requires
        is_course(opts, descriptors, one),
        is_course(opts, descriptors, two),
        told_elsewhere(one) == told_elsewhere(two),
    ensures
        without_sidecar(opts, one.steps.last().phase) == without_sidecar(
            opts,
            two.steps.last().phase,
        ),
        settled(opts, one.steps.last().phase) == settled(opts, two.steps.last().phase),
        one.steps.last().action is Exit && two.steps.last().action is Exit
            ==> one.steps.last().action == two.steps.last().action,
{
    sidecar_does_not_steer(opts, descriptors, one);
    sidecar_does_not_steer(opts, descriptors, two);
    every_step_is_sound(opts, descriptors, one, one.steps.len() - 1);
    every_step_is_sound(opts, descriptors, two, two.steps.len() - 1);
    lemma_asks_in_kind(opts, descriptors, one, one.steps.len() - 1);
    lemma_asks_in_kind(opts, descriptors, two, two.steps.len() - 1);
}

/// A waiter under `-v` names the holder: where the sidecar is as the holder
/// wrote it, the line says who that is, by process id and label.
pub proof fn waiter_names_the_holder(
    opts: OptsView,
    pid: nat,
    label: Option<Seq<char>>,
    since_epoch: Option<u64>,
    shared: bool,
)
    requires
        label matches Some(text) ==> fits_one_line(text),
    ensures
        ({
            let answer = Event::Contents(Some(contents_of(pid, label, since_epoch, shared)));
            let account = match label {
                Some(text) if text.len() > 0 => "pid "@ + decimal(pid) + ", "@ + text,
                _ => "pid "@ + decimal(pid),
            };
            let looking = Phase::Wrap(WrapPhase::Acquiring { stage: Stage::Looking });
            let refused = Phase::Wrap(WrapPhase::FindingHolder);
            &&& next_step(opts, looking, answer).action == (ActionView::Print {
                line: "flock: waiting for lock on "@ + opts.target + " (held by "@ + account + ")"@,
            })
            &&& next_step(opts, refused, answer).action == (ActionView::Print {
                line: "flock: failed to acquire lock (held by "@ + account + ")"@,
            })
        }),
{
    sidecar_reads_back(pid, label, since_epoch, shared);
}

/// `-x` asks for what happens anyway: it makes no difference to a run.
pub proof fn exclusive_is_the_default(
    opts: OptsView,
    exclusive: bool,
    descriptors: bool,
    phase: PhaseView,
    event: EventView,
)
    ensures
        first_step(OptsView { exclusive, ..opts }, descriptors) == first_step(opts, descriptors),
        next_step(OptsView { exclusive, ..opts }, phase, event) == next_step(opts, phase, event),
{
}

} // verus!
