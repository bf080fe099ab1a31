//! What a run does, request by request: what it asks for after each answer.
//!
//! The laws here speak of requests and answers alone, and of the options as they
//! were given. Between them they say, for every request and every answer to it,
//! what comes next.

use vstd::prelude::*;

#[allow(unused_imports)]
use crate::acquire::Stage;
#[allow(unused_imports)]
use crate::action::{
    answers, query_of, Action, ActionView, Event, EventView, OpenMode, SpawnFault, Target,
};
#[allow(unused_imports)]
use crate::descriptor::descriptor_of;
#[allow(unused_imports)]
use crate::holder::{
    fits_one_line, sidecar_path_of, sidecar_reads_back, summary_of, temp_path_of, Writing,
};
#[allow(unused_imports)]
use crate::laws::{
    descriptor_lock_outlives_the_run, every_step_is_sound, exit_code_is_the_one_settled, is_course,
    is_misuse, leaves_time, verdict, Course,
};
#[allow(unused_imports)]
use crate::messages::debug_of;
#[allow(unused_imports)]
use crate::options::OptsView;
#[allow(unused_imports)]
use crate::run::{
    first_step, next_step, FdPhase, Phase, PhaseView, StepView, WrapPhase,
};
#[allow(unused_imports)]
use crate::text::{decimal, signed_decimal};

verus! {

/// The request that belongs to a phase.
spec fn belongs(opts: OptsView, step: StepView) -> bool {
    let action = step.action;
    match step.phase {
        Phase::Wrap(wrap) => match wrap {
            WrapPhase::OpeningWritable => action matches Action::Open { path, mode } && path
                == opts.target && mode == (OpenMode {
                read: true,
                write: true,
                create: true,
                truncate: false,
            }),
            WrapPhase::OpeningReadOnly => action matches Action::Open { path, mode } && path
                == opts.target && mode == (OpenMode {
                read: true,
                write: false,
                create: false,
                truncate: false,
            }),
            WrapPhase::StartingTimer => action is StartTimer,
            WrapPhase::Acquiring { stage } => match stage {
                Stage::Trying => action == (ActionView::TryLock {
                    target: Target::File,
                    shared: opts.shared,
                }),
                Stage::Looking => action is ReadFile,
                Stage::Announcing => action is Print,
                Stage::Waiting => action == wait_for(opts, Target::File),
            },
            WrapPhase::FindingHolder => action is ReadFile,
            WrapPhase::ReadingTimer => action is ReadTimer,
            WrapPhase::Reporting => action is Print,
            WrapPhase::Identifying => action is Identify,
            WrapPhase::Writing { progress, pid, .. } => {
                let temp = temp_path_of(opts.target, pid as nat, opts.rules);
                match progress {
                    Writing::Preparing => action matches Action::WriteFile { path, .. } && path
                        == temp,
                    Writing::Moving => action == (ActionView::Rename {
                        from: temp,
                        to: sidecar_path_of(opts.target, opts.rules),
                    }),
                    Writing::Discarding => action == (ActionView::RemoveFile { path: temp }),
                }
            },
            WrapPhase::Running { .. } => action == (ActionView::Spawn {
                program: opts.command[0],
                args: opts.command.skip(1),
            }),
            WrapPhase::ReportingFault { .. } => action is Print,
            WrapPhase::Removing { .. } => action == (ActionView::RemoveFile {
                path: sidecar_path_of(opts.target, opts.rules),
            }),
            WrapPhase::Closing { .. } => action is Close,
        },
        Phase::Fd { fd, phase } => match phase {
            FdPhase::Acquiring { stage } => match stage {
                Stage::Trying => action == (ActionView::TryLock {
                    target: Target::Descriptor(fd),
                    shared: opts.shared,
                }),
                Stage::Looking => false,
                Stage::Announcing => action is Print,
                Stage::Waiting => action == wait_for(opts, Target::Descriptor(fd)),
            },
            FdPhase::Unlocking => action == (ActionView::Unlock { fd }),
        },
        Phase::Leaving { .. } => action is Print,
        Phase::Exited { code } => action == (ActionView::Exit { code }),
    }
}

/// The request that waits for a lock: within the timeout, or without a limit where
/// there is no timeout or one of 2 to the 64th power seconds or more.
pub open spec fn wait_for(opts: OptsView, target: Target) -> ActionView {
    match opts.timeout {
        Some(bits) if bits < 0x43f0_0000_0000_0000 => Action::LockWithin {
            target,
            shared: opts.shared,
            timeout: bits,
        },
        _ => Action::Lock { target, shared: opts.shared },
    }
}

/// What a step is, and where it leads once it is answered.
proof fn lemma_step(opts: OptsView, descriptors: bool, course: Course, k: int)
    requires
        is_course(opts, descriptors, course),
        0 <= k < course.steps.len(),
    ensures
        belongs(opts, course.steps[k]),
        k < course.events.len() ==> {
            &&& answers(query_of(course.steps[k].action), course.events[k])
            &&& course.steps[k + 1] == next_step(opts, course.steps[k].phase, course.events[k])
        },
{
    every_step_is_sound(opts, descriptors, course, k);
    if k < course.events.len() {
        assert(answers(query_of(course.steps[k].action), course.events[k]));
    }
    if k > 0 {
        every_step_is_sound(opts, descriptors, course, k - 1);
        assert(answers(query_of(course.steps[k - 1].action), course.events[k - 1]));
    }
}

/// Whether the `k`th request, if the run has come to it, is this one.
pub open spec fn asks(course: Course, k: int, action: ActionView) -> bool {
    k < course.steps.len() ==> course.steps[k].action == action
}

/// What a sidecar says of the holder, as far as it could be read.
pub open spec fn account(event: EventView) -> Option<Seq<char>> {
    match event {
        Event::Contents(Some(text)) => summary_of(text),
        _ => None,
    }
}

/// The run says why it failed, and exits with 125.
pub open spec fn fails(course: Course, k: int, line: Seq<char>) -> bool {
    &&& asks(course, k, Action::Print { line })
    &&& asks(course, k + 1, Action::Exit { code: 125 })
}

/// The run goes without the lock: it exits with the conflict exit code, and under
/// `-v` first says so, with what the sidecar says of a lock file's holder.
pub open spec fn gives_up(opts: OptsView, course: Course, k: int, target: Target) -> bool {
    let exit = ActionView::Exit { code: opts.conflict_exit_code };
    if !opts.verbose {
        asks(course, k, exit)
    } else {
        match target {
            Target::Descriptor(fd) => {
                &&& asks(
                    course,
                    k,
                    Action::Print {
                        line: "flock: "@ + "failed to acquire"@ + " lock on fd "@ + signed_decimal(
                            fd as int,
                        ),
                    },
                )
                &&& asks(course, k + 1, exit)
            },
            Target::File => {
                &&& asks(
                    course,
                    k,
                    Action::ReadFile { path: sidecar_path_of(opts.target, opts.rules) },
                )
                &&& k < course.events.len() ==> asks(
                    course,
                    k + 1,
                    Action::Print {
                        line: match account(course.events[k]) {
                            Some(holder) => "flock: failed to acquire lock (held by "@ + holder
                                + ")"@,
                            None => "flock: failed to acquire lock"@,
                        },
                    },
                )
                &&& asks(course, k + 2, exit)
            },
        }
    }
}

/// The run waits for the lock, and under `-v` first says so, with what the sidecar
/// says of a lock file's holder.
pub open spec fn waits(opts: OptsView, course: Course, k: int, target: Target) -> bool {
    if !opts.verbose {
        asks(course, k, wait_for(opts, target))
    } else {
        match target {
            Target::Descriptor(fd) => {
                &&& asks(
                    course,
                    k,
                    Action::Print {
                        line: "flock: waiting for lock on "@ + ("fd "@ + signed_decimal(fd as int)),
                    },
                )
                &&& asks(course, k + 1, wait_for(opts, target))
            },
            Target::File => {
                &&& asks(
                    course,
                    k,
                    Action::ReadFile { path: sidecar_path_of(opts.target, opts.rules) },
                )
                &&& k < course.events.len() ==> asks(
                    course,
                    k + 1,
                    Action::Print {
                        line: match account(course.events[k]) {
                            Some(holder) => "flock: waiting for lock on "@ + opts.target
                                + " (held by "@ + holder + ")"@,
                            None => "flock: waiting for lock on "@ + opts.target,
                        },
                    },
                )
                &&& asks(course, k + 2, wait_for(opts, target))
            },
        }
    }
}

/// The run has the lock. On a descriptor it exits with 0, and under `-v` first says
/// that it has it. On a lock file it goes on to the sidecar, and under `-v` first
/// says how long it took.
pub open spec fn goes_on(opts: OptsView, course: Course, k: int, target: Target) -> bool {
    match target {
        Target::Descriptor(fd) => if opts.verbose {
            &&& asks(
                course,
                k,
                Action::Print {
                    line: "flock: "@ + "acquired"@ + " lock on fd "@ + signed_decimal(fd as int),
                },
            )
            &&& asks(course, k + 1, Action::Exit { code: 0 })
        } else {
            asks(course, k, Action::Exit { code: 0 })
        },
        Target::File => if opts.verbose {
            &&& asks(course, k, Action::ReadTimer)
            &&& k < course.events.len() ==> (course.events[k] matches Event::Seconds(seconds)
                && asks(
                course,
                k + 1,
                Action::Print { line: "flock: acquired lock after "@ + seconds + "s"@ },
            ))
            &&& asks(course, k + 2, Action::Identify)
        } else {
            asks(course, k, Action::Identify)
        },
    }
}

/// The first request of a run. With a command it is to open the lock file, for
/// reading and writing, created if absent and not truncated; `-u` is refused then.
/// Without one the target is a descriptor, which is tried for, or given up with
/// `-u`; anything else is refused.
pub proof fn first_request(opts: OptsView, descriptors: bool, course: Course)
    requires
        is_course(opts, descriptors, course),
    ensures
        opts.command.len() > 0 && !opts.unlock ==> course.steps[0].action == (ActionView::Open {
            path: opts.target,
            mode: OpenMode { read: true, write: true, create: true, truncate: false },
        }),
        opts.command.len() > 0 && opts.unlock ==> fails(
            course,
            0,
            "flock: -u/--unlock is only valid in descriptor mode (no command)"@,
        ),
        opts.command.len() == 0 && !descriptors ==> fails(
            course,
            0,
            "flock: descriptor lock mode is only supported on unix"@,
        ),
        opts.command.len() == 0 && descriptors ==> match descriptor_of(opts.target) {
            Some(fd) => course.steps[0].action == if opts.unlock {
                ActionView::Unlock { fd: fd as i32 }
            } else {
                ActionView::TryLock {
                    target: Target::Descriptor(fd as i32),
                    shared: opts.shared,
                }
            },
            None => fails(
                course,
                0,
                "flock: expected a command after the lock target, or a bare integer file descriptor for descriptor mode; got "@
                    + debug_of(opts.target),
            ),
        },
{
    lemma_step(opts, descriptors, course, 0);
}

/// What follows the opening of the lock file: the clock is started once it is open;
/// where it cannot be opened for writing, it is opened for reading only; and where
/// that fails too, the run fails.
pub proof fn after_opening(opts: OptsView, descriptors: bool, course: Course, k: int)
    requires
        is_course(opts, descriptors, course),
        0 <= k < course.events.len(),
        course.steps[k].action is Open,
    ensures
        course.steps[k].action matches Action::Open { path, mode } && path == opts.target
            && mode.read && !mode.truncate && mode.create == mode.write,
        match course.events[k] {
            Event::Done => course.steps[k + 1].action is StartTimer,
            Event::Failed(cause) => if (course.steps[k].action->mode).write {
                course.steps[k + 1].action == (ActionView::Open {
                    path: opts.target,
                    mode: OpenMode { read: true, write: false, create: false, truncate: false },
                })
            } else {
                fails(
                    course,
                    k + 1,
                    "flock: "@ + ("opening lock file "@ + opts.target) + ": "@ + cause,
                )
            },
            _ => false,
        },
{
    lemma_step(opts, descriptors, course, k);
    lemma_step(opts, descriptors, course, k + 1);
}

/// Once the clock is started the lock is tried for, without waiting.
pub proof fn after_the_clock(opts: OptsView, descriptors: bool, course: Course, k: int)
    requires
        is_course(opts, descriptors, course),
        0 <= k < course.events.len(),
        course.steps[k].action is StartTimer,
    ensures
        course.steps[k + 1].action == (ActionView::TryLock {
            target: Target::File,
            shared: opts.shared,
        }),
{
    lemma_step(opts, descriptors, course, k);
    lemma_step(opts, descriptors, course, k + 1);
}

/// What follows an attempt at the lock. Where the lock is held by others, it is
/// waited for if there is no `-n`, and no timeout but a positive number; else the
/// run goes without it.
pub proof fn after_an_attempt(
    opts: OptsView,
    descriptors: bool,
    course: Course,
    k: int,
    target: Target,
    shared: bool,
)
    requires
        is_course(opts, descriptors, course),
        0 <= k < course.events.len(),
        course.steps[k].action == (ActionView::TryLock { target, shared }),
    ensures
        shared == opts.shared,
        match course.events[k] {
            Event::Done => goes_on(opts, course, k + 1, target),
            Event::WouldBlock => if !opts.nonblock && (opts.timeout matches Some(bits) ==> 0 < bits
                <= 0x7ff0_0000_0000_0000) {
                waits(opts, course, k + 1, target)
            } else {
                gives_up(opts, course, k + 1, target)
            },
            Event::Failed(cause) => fails(
                course,
                k + 1,
                "flock: "@ + (match target {
                    Target::File => "acquiring lock"@,
                    Target::Descriptor(fd) => "acquiring lock on fd "@ + signed_decimal(fd as int),
                }) + ": "@ + cause,
            ),
            _ => false,
        },
{
    lemma_step(opts, descriptors, course, k);
    lemma_step(opts, descriptors, course, k + 1);
    if k + 2 < course.steps.len() {
        lemma_step(opts, descriptors, course, k + 2);
    }
    if k + 3 < course.steps.len() {
        lemma_step(opts, descriptors, course, k + 3);
    }
}

/// What follows a wait for the lock. It ends with the lock, or, within a timeout,
/// without it: where the time ran out, or where the thread that waited was lost.
/// Anything else is a failure.
pub proof fn after_a_wait(
    opts: OptsView,
    descriptors: bool,
    course: Course,
    k: int,
    target: Target,
)
    requires
        is_course(opts, descriptors, course),
        0 <= k < course.events.len(),
        (course.steps[k].action matches Action::Lock { target: on, .. } && on == target) || (
        course.steps[k].action matches Action::LockWithin { target: on, .. } && on == target),
    ensures
        leaves_time(opts),
        course.steps[k].action == wait_for(opts, target),
        ({
            let attempt = match target {
                Target::File => "acquiring lock"@,
                Target::Descriptor(fd) => "acquiring lock on fd "@ + signed_decimal(fd as int),
            };
            match course.events[k] {
                Event::Done => goes_on(opts, course, k + 1, target),
                Event::TimedOut | Event::Disconnected => {
                    &&& course.steps[k].action is LockWithin
                    &&& gives_up(opts, course, k + 1, target)
                },
                Event::Failed(cause) => fails(
                    course,
                    k + 1,
                    "flock: "@ + attempt + ": "@ + cause,
                ),
                Event::NotCloned(cause) => fails(
                    course,
                    k + 1,
                    "flock: "@ + attempt + ": "@ + ("cloning lock fd for timeout wait"@ + ": "@
                        + cause),
                ),
                Event::NoThread(cause) => fails(
                    course,
                    k + 1,
                    "flock: "@ + attempt + ": "@ + ("spawning lock wait thread"@ + ": "@ + cause),
                ),
                _ => false,
            }
        }),
{
    every_step_is_sound(opts, descriptors, course, k);
    lemma_step(opts, descriptors, course, k);
    lemma_step(opts, descriptors, course, k + 1);
    if k + 2 < course.steps.len() {
        lemma_step(opts, descriptors, course, k + 2);
    }
    if k + 3 < course.steps.len() {
        lemma_step(opts, descriptors, course, k + 3);
    }
}

/// The run gives up the lock: the sidecar is removed if one was put in place, the
/// lock file is closed, and the run exits with this code.
pub open spec fn releases(opts: OptsView, course: Course, k: int, placed: bool, code: int) -> bool {
    if placed {
        &&& asks(
            course,
            k,
            Action::RemoveFile { path: sidecar_path_of(opts.target, opts.rules) },
        )
        &&& asks(course, k + 1, Action::Close)
        &&& asks(course, k + 2, Action::Exit { code: code as i32 })
    } else {
        &&& asks(course, k, Action::Close)
        &&& asks(course, k + 1, Action::Exit { code: code as i32 })
    }
}

/// What a sidecar says of a run: the process id, the label, the time since the
/// epoch in seconds, 0 where the clock stands before it, and the kind of lock.
pub open spec fn statement(opts: OptsView, pid: u32, since_epoch: Option<u64>) -> Seq<char> {
    let label = match opts.label {
        Some(text) => text,
        None => Seq::empty(),
    };
    let started = match since_epoch {
        Some(seconds) => seconds as nat,
        None => 0,
    };
    let mode = if opts.shared {
        "shared"@
    } else {
        "exclusive"@
    };
    "pid="@ + decimal(pid as nat) + "\nlabel="@ + label + "\nstarted="@ + decimal(started)
        + "\nmode="@ + mode + "\n"@
}

/// Once the process knows who it is, it writes the sidecar, of itself, under a name
/// of its own.
pub proof fn after_identifying(opts: OptsView, descriptors: bool, course: Course, k: int)
    requires
        is_course(opts, descriptors, course),
        0 <= k < course.events.len(),
        course.steps[k].action is Identify,
    ensures
        course.events[k] matches Event::Identity { pid, since_epoch } && course.steps[k + 1].action
            == (ActionView::WriteFile {
            path: temp_path_of(opts.target, pid as nat, opts.rules),
            contents: statement(opts, pid, since_epoch),
        }),
{
    lemma_step(opts, descriptors, course, k);
    lemma_step(opts, descriptors, course, k + 1);
}

/// A sidecar that was written is moved into place. Where it could not be written it
/// is removed, and the command is run all the same.
pub proof fn after_writing(opts: OptsView, descriptors: bool, course: Course, k: int)
    requires
        is_course(opts, descriptors, course),
        0 <= k < course.events.len(),
        course.steps[k].action is WriteFile,
    ensures
        course.steps[k].action matches Action::WriteFile { path, .. } && if course.events[k] is Done {
            course.steps[k + 1].action == (ActionView::Rename {
                from: path,
                to: sidecar_path_of(opts.target, opts.rules),
            })
        } else {
            &&& course.steps[k + 1].action == (ActionView::RemoveFile { path })
            &&& asks(
                course,
                k + 2,
                Action::Spawn { program: opts.command[0], args: opts.command.skip(1) },
            )
        },
{
    lemma_step(opts, descriptors, course, k);
    lemma_step(opts, descriptors, course, k + 1);
    if k + 2 < course.steps.len() {
        lemma_step(opts, descriptors, course, k + 2);
    }
}

/// Once the sidecar is in place the command is run. Where it could not be moved
/// there it is removed, and the command is run all the same.
pub proof fn after_moving(opts: OptsView, descriptors: bool, course: Course, k: int)
    requires
        is_course(opts, descriptors, course),
        0 <= k < course.events.len(),
        course.steps[k].action is Rename,
    ensures
        ({
            let command = ActionView::Spawn {
                program: opts.command[0],
                args: opts.command.skip(1),
            };
            course.steps[k].action matches Action::Rename { from, .. } && if course.events[k] is Done {
                course.steps[k + 1].action == command
            } else {
                &&& course.steps[k + 1].action == (ActionView::RemoveFile { path: from })
                &&& asks(course, k + 2, command)
            }
        }),
{
    lemma_step(opts, descriptors, course, k);
    lemma_step(opts, descriptors, course, k + 1);
    if k + 2 < course.steps.len() {
        lemma_step(opts, descriptors, course, k + 2);
    }
}

/// What follows the command: its end is passed on as the exit code, or that it could
/// not be run is said, and the lock is given up. The sidecar is removed exactly if it
/// had been moved into place, which is then the request before.
pub proof fn after_the_command(opts: OptsView, descriptors: bool, course: Course, k: int)
    requires
        is_course(opts, descriptors, course),
        0 <= k < course.events.len(),
        course.steps[k].action is Spawn,
    ensures
        0 < k,
        ({
            let placed = course.steps[k - 1].action is Rename && course.events[k - 1] is Done;
            match course.events[k] {
                Event::Ended { code: Some(own), .. } => releases(
                    opts,
                    course,
                    k + 1,
                    placed,
                    own as int,
                ),
                Event::Ended { code: None, signal: Some(number) } => releases(
                    opts,
                    course,
                    k + 1,
                    placed,
                    128 + number,
                ),
                Event::Ended { code: None, signal: None } => releases(
                    opts,
                    course,
                    k + 1,
                    placed,
                    126,
                ),
                Event::NotSpawned { fault, cause } => {
                    &&& asks(
                        course,
                        k + 1,
                        Action::Print { line: "flock: "@ + opts.command[0] + ": "@ + cause },
                    )
                    &&& releases(
                        opts,
                        course,
                        k + 2,
                        placed,
                        if fault == SpawnFault::NotFound {
                            127
                        } else {
                            126
                        },
                    )
                },
                _ => false,
            }
        }),
{
    lemma_step(opts, descriptors, course, k);
    if k > 0 {
        lemma_step(opts, descriptors, course, k - 1);
    }
    lemma_step(opts, descriptors, course, k + 1);
    if k + 2 < course.steps.len() {
        lemma_step(opts, descriptors, course, k + 2);
    }
    if k + 3 < course.steps.len() {
        lemma_step(opts, descriptors, course, k + 3);
    }
    if k + 4 < course.steps.len() {
        lemma_step(opts, descriptors, course, k + 4);
    }
}

/// What follows the giving up of a descriptor's lock: exit code 0, and under `-v` a
/// word about it first; or the failure.
pub proof fn after_unlocking(opts: OptsView, descriptors: bool, course: Course, k: int, fd: i32)
    requires
        is_course(opts, descriptors, course),
        0 <= k < course.events.len(),
        course.steps[k].action == (ActionView::Unlock { fd }),
    ensures
        match course.events[k] {
            Event::Done => if opts.verbose {
                &&& asks(
                    course,
                    k + 1,
                    Action::Print {
                        line: "flock: "@ + "released"@ + " lock on fd "@ + signed_decimal(fd as int),
                    },
                )
                &&& asks(course, k + 2, Action::Exit { code: 0 })
            } else {
                asks(course, k + 1, Action::Exit { code: 0 })
            },
            Event::Failed(cause) => fails(
                course,
                k + 1,
                "flock: "@ + ("unlocking fd "@ + signed_decimal(fd as int)) + ": "@ + cause,
            ),
            _ => false,
        },
{
    lemma_step(opts, descriptors, course, k);
    lemma_step(opts, descriptors, course, k + 1);
    if k + 2 < course.steps.len() {
        lemma_step(opts, descriptors, course, k + 2);
    }
}

/// Whether the lock file was opened before the `k`th request.
pub open spec fn opened_before(opts: OptsView, course: Course, k: int) -> bool {
    exists|j: int|
        {
            &&& 0 <= j < k
            &&& #[trigger] course.events[j] is Done
            &&& course.steps[j].action matches Action::Open { path, .. }
            &&& path == opts.target
        }
}

proof fn lemma_opened(opts: OptsView, descriptors: bool, course: Course, k: int)
    requires
        is_course(opts, descriptors, course),
        0 <= k < course.steps.len(),
        course.steps[k].phase matches Phase::Wrap(wrap) && !(wrap is OpeningWritable) && !(
        wrap is OpeningReadOnly),
    ensures
        opened_before(opts, course, k),
    decreases k,
{
    if k > 0 {
        lemma_step(opts, descriptors, course, k - 1);
        let before = course.steps[k - 1].phase;
        if before is Wrap && !(before->Wrap_0 is OpeningWritable) && !(
        before->Wrap_0 is OpeningReadOnly) {
            lemma_opened(opts, descriptors, course, k - 1);
            let j = choose|j: int|
                {
                    &&& 0 <= j < k - 1
                    &&& #[trigger] course.events[j] is Done
                    &&& course.steps[j].action matches Action::Open { path, .. }
                    &&& path == opts.target
                };
            assert(course.events[j] is Done);
        } else {
            assert(course.events[k - 1] is Done);
        }
    }
}

/// The lock on a lock file is asked for, the file closed, and the command run, only
/// after the lock file has been opened.
pub proof fn lock_file_is_open_by_then(opts: OptsView, descriptors: bool, course: Course, k: int)
    requires
        is_course(opts, descriptors, course),
        0 <= k < course.steps.len(),
    ensures
        match course.steps[k].action {
            Action::TryLock { target: Target::File, .. } => opened_before(opts, course, k),
            Action::Lock { target: Target::File, .. } => opened_before(opts, course, k),
            Action::LockWithin { target: Target::File, .. } => opened_before(opts, course, k),
            Action::Spawn { .. } | Action::Close => opened_before(opts, course, k),
            _ => true,
        },
{
    lemma_step(opts, descriptors, course, k);
    if course.steps[k].phase matches Phase::Wrap(wrap) && !(wrap is OpeningWritable) && !(
    wrap is OpeningReadOnly) {
        lemma_opened(opts, descriptors, course, k);
    }
}

/// What a run writes is about itself: the process id and the time are those that it
/// was told just before, the label and the kind of lock those of its options. So who
/// reads the sidecar of a run is told the process id and the label of that run. The
/// label must fit on one line for that.
pub proof fn sidecar_tells_of_the_run(opts: OptsView, descriptors: bool, course: Course, k: int)
    requires
        is_course(opts, descriptors, course),
        0 <= k < course.steps.len(),
        course.steps[k].action is WriteFile,
    ensures
        0 < k,
        course.steps[k - 1].action is Identify,
        course.events[k - 1] matches Event::Identity { pid, since_epoch } && {
            let contents = course.steps[k].action->contents;
            &&& contents == statement(opts, pid, since_epoch)
            &&& (opts.label matches Some(text) ==> fits_one_line(text)) ==> summary_of(contents)
                == Some(
                match opts.label {
                    Some(text) if text.len() > 0 => "pid "@ + decimal(pid as nat) + ", "@ + text,
                    _ => "pid "@ + decimal(pid as nat),
                },
            )
        },
{
    lemma_step(opts, descriptors, course, k);
    if k > 0 {
        lemma_step(opts, descriptors, course, k - 1);
        if course.steps[k - 1].action is Identify {
            after_identifying(opts, descriptors, course, k - 1);
            if opts.label matches Some(text) ==> fits_one_line(text) {
                sidecar_reads_back(
                    (course.events[k - 1]->pid) as nat,
                    opts.label,
                    course.events[k - 1]->since_epoch,
                    opts.shared,
                );
            }
        }
    }
}

/// A run with neither `-n` nor `-w` waits as long as it takes: an attempt that meets
/// a held lock is followed, after the announcement under `-v`, by a request for the
/// lock without a limit, on the same target and of the same kind.
pub proof fn plain_run_waits(
    opts: OptsView,
    descriptors: bool,
    course: Course,
    k: int,
    target: Target,
)
    requires
        is_course(opts, descriptors, course),
        0 <= k < course.events.len(),
        course.steps[k].action == (ActionView::TryLock { target, shared: opts.shared }),
        course.events[k] is WouldBlock,
        !opts.nonblock,
        opts.timeout is None,
    ensures
        ({
            let ahead = if !opts.verbose {
                1int
            } else if target is File {
                3
            } else {
                2
            };
            &&& asks(course, k + ahead, Action::Lock { target, shared: opts.shared })
            &&& forall|j: int|
                k < j < k + ahead && j < course.steps.len() ==> (
                #[trigger] course.steps[j]).action is Print || course.steps[j].action is ReadFile
        }),
{
    after_an_attempt(opts, descriptors, course, k, target, opts.shared);
}

/// A run with neither `-n` nor `-w` is never refused: it exits with what the command
/// came to, with 0 for a descriptor that it locked or unlocked, or with 125 because
/// something failed.
pub proof fn plain_run_is_not_refused(
    opts: OptsView,
    descriptors: bool,
    course: Course,
    code: i32,
)
    requires
        is_course(opts, descriptors, course),
        course.steps.last().action == (ActionView::Exit { code }),
        !opts.nonblock,
        opts.timeout is None,
    ensures
        opts.command.len() == 0 ==> code == 0 || code == 125,
        opts.command.len() > 0 ==> code == 125 || exists|i: int|
            0 <= i < course.events.len() && (#[trigger] course.steps[i]).action is Spawn,
{
    exit_code_is_the_one_settled(opts, descriptors, course, code);
    if code != 125 {
        let i = choose|i: int|
            0 <= i < course.events.len() && verdict(
                opts,
                course.steps[i].action,
                #[trigger] course.events[i],
            ) == Some(code as int);
        lemma_step(opts, descriptors, course, i);
        every_step_is_sound(opts, descriptors, course, i);
        if opts.command.len() == 0 {
            descriptor_lock_outlives_the_run(opts, descriptors, course, i);
        }
        assert(course.steps[i].action == course.steps[i].action);
    }
}

/// A run that meets a held lock and may not wait for it, because of `-n` or because
/// the timeout is not a positive number, asks for the lock no more and exits with
/// the conflict exit code, whatever that is.
pub proof fn impatient_run_is_refused(
    opts: OptsView,
    descriptors: bool,
    course: Course,
    k: int,
    code: i32,
)
    requires
        is_course(opts, descriptors, course),
        course.steps.last().action == (ActionView::Exit { code }),
        0 <= k < course.events.len(),
        course.events[k] is WouldBlock || course.events[k] is TimedOut,
        course.events[k] is WouldBlock ==> opts.nonblock || (opts.timeout matches Some(bits) && !(0
            < bits <= 0x7ff0_0000_0000_0000)),
    ensures
        code == opts.conflict_exit_code,
{
    exit_code_is_the_one_settled(opts, descriptors, course, code);
    lemma_step(opts, descriptors, course, k);
}

} // verus!
