//! Taking a lock: one attempt, and then a wait as long as the options allow.

use vstd::prelude::*;

use crate::action::{Action, Event, Target};
#[allow(unused_imports)]
use crate::action::{answers, query_of, ActionView, EventView, Query};
#[allow(unused_imports)]
use crate::holder::{sidecar_path_of, summary_of};
use crate::holder::{read, sidecar_path};
use crate::messages::{description, wait_failure, waiting};
#[allow(unused_imports)]
use crate::messages::{description_of, wait_cause, waiting_line};
use crate::options::{timeout_is_over, wait_limit, Opts};
#[allow(unused_imports)]
use crate::options::{is_over, limit_of, OptsView};

verus! {

/// How far the taking of a lock has come.
#[derive(Clone, Copy, Debug, PartialEq, Eq, Structural)]
pub enum Stage {
    /// One attempt that does not wait.
    Trying,
    /// The holder is being looked up, for the announcement.
    Looking,
    /// The wait is being announced.
    Announcing,
    /// The lock is being waited for.
    Waiting,
}

/// What is to be done next about a lock.
#[derive(Debug)]
pub enum AcquireStep<S, L> {
    Ask { stage: Stage, action: Action<S, L> },
    /// The lock is held.
    Acquired,
    /// The lock could not be had under `-n` or `-w`.
    Refused,
    /// Something other than the lock's being held stood in the way.
    Failed { cause: S },
}

impl<S: DeepView, L: DeepView> DeepView for AcquireStep<S, L> {
    type V = AcquireStep<S::V, L::V>;

    open spec fn deep_view(&self) -> AcquireStep<S::V, L::V> {
        match *self {
            AcquireStep::Ask { stage, action } => AcquireStep::Ask {
                stage,
                action: action.deep_view(),
            },
            AcquireStep::Acquired => AcquireStep::Acquired,
            AcquireStep::Refused => AcquireStep::Refused,
            AcquireStep::Failed { cause } => AcquireStep::Failed { cause: cause.deep_view() },
        }
    }
}

/// A step as contracts see it.
pub type AcquireStepView = AcquireStep<Seq<char>, Seq<Seq<char>>>;

/// Whether the options allow waiting for a lock that is held: not with `-n`,
/// and not with a timeout that is over from the start.
pub open spec fn may_wait(opts: OptsView) -> bool {
    &&& !opts.nonblock
    &&& opts.timeout matches Some(timeout) ==> !is_over(timeout)
}

/// Whether a stage is one that the taking of this lock can come to.
pub open spec fn reaches(opts: OptsView, target: Target, stage: Stage) -> bool {
    match stage {
        Stage::Trying => true,
        Stage::Looking => may_wait(opts) && opts.verbose && target == Target::File,
        Stage::Announcing => may_wait(opts) && opts.verbose,
        Stage::Waiting => may_wait(opts),
    }
}

/// The kind of answer that a stage waits for.
pub open spec fn awaited(opts: OptsView, stage: Stage) -> Query {
    match stage {
        Stage::Trying => Query::Attempt,
        Stage::Looking => Query::Text,
        Stage::Announcing => Query::Plain,
        Stage::Waiting => if limit_of(opts.timeout) is Some {
            Query::TimedWait
        } else {
            Query::Fallible
        },
    }
}

/// What one attempt without waiting comes to: the lock, a conflict, or a
/// failure that is no conflict.
pub open spec fn tried(event: EventView) -> Result<bool, Seq<char>> {
    match event {
        Event::Done => Ok(true),
        Event::Failed(cause) => Err(cause),
        _ => Ok(false),
    }
}

/// What a wait comes to. One that ran out of time, or whose thread was lost, is
/// a conflict.
pub open spec fn waited(event: EventView) -> Result<bool, Seq<char>> {
    match event {
        Event::Done => Ok(true),
        Event::Failed(cause) => Err(cause),
        Event::NotCloned(cause) => Err(wait_cause("cloning lock fd for timeout wait"@, cause)),
        Event::NoThread(cause) => Err(wait_cause("spawning lock wait thread"@, cause)),
        _ => Ok(false),
    }
}

/// The request that waits for the lock, for ever or as long as the timeout says.
pub open spec fn wait_action(opts: OptsView, target: Target) -> ActionView {
    match limit_of(opts.timeout) {
        Some(timeout) => Action::LockWithin { target, shared: opts.shared, timeout },
        None => Action::Lock { target, shared: opts.shared },
    }
}

/// The announcement of a wait, given what the sidecar says.
pub open spec fn announcement(
    opts: OptsView,
    target: Target,
    contents: Option<Seq<char>>,
) -> ActionView {
    let holder = match contents {
        Some(text) => summary_of(text),
        None => None,
    };
    Action::Print { line: waiting_line(description_of(target, opts.target), holder) }
}

/// The course of taking a lock. First comes an attempt that does not wait. Where
/// it meets a conflict and the options allow it, a wait follows, announced under
/// `-v`.
pub open spec fn acquire_step(
    opts: OptsView,
    target: Target,
    last: Option<(Stage, EventView)>,
) -> AcquireStepView {
    let wait = AcquireStep::Ask { stage: Stage::Waiting, action: wait_action(opts, target) };
    match last {
        None => AcquireStep::Ask {
            stage: Stage::Trying,
            action: Action::TryLock { target, shared: opts.shared },
        },
        Some((Stage::Trying, event)) => match tried(event) {
            Ok(true) => AcquireStep::Acquired,
            Err(cause) => AcquireStep::Failed { cause },
            Ok(false) => if !may_wait(opts) {
                AcquireStep::Refused
            } else if !opts.verbose {
                wait
            } else if target == Target::File {
                AcquireStep::Ask {
                    stage: Stage::Looking,
                    action: Action::ReadFile { path: sidecar_path_of(opts.target, opts.rules) },
                }
            } else {
                AcquireStep::Ask {
                    stage: Stage::Announcing,
                    action: announcement(opts, target, None),
                }
            },
        },
        Some((Stage::Looking, event)) => AcquireStep::Ask {
            stage: Stage::Announcing,
            action: announcement(
                opts,
                target,
                match event {
                    Event::Contents(contents) => contents,
                    _ => None,
                },
            ),
        },
        Some((Stage::Announcing, _)) => wait,
        Some((Stage::Waiting, event)) => match waited(event) {
            Ok(true) => AcquireStep::Acquired,
            Ok(false) => AcquireStep::Refused,
            Err(cause) => AcquireStep::Failed { cause },
        },
    }
}

/// What one attempt without waiting came to.
pub fn try_lock(event: Event<String>) -> (outcome: Result<bool, String>)
    ensures
        match outcome {
            Ok(held) => tried(event.deep_view()) == Ok::<bool, Seq<char>>(held),
            Err(cause) => tried(event.deep_view()) == Err::<bool, Seq<char>>(cause@),
        },
{
    match event {
        Event::Done => Ok(true),
        Event::Failed(cause) => Err(cause),
        _ => Ok(false),
    }
}

/// What a wait came to.
pub fn lock_with_timeout(event: Event<String>) -> (outcome: Result<bool, String>)
    ensures
        match outcome {
            Ok(held) => waited(event.deep_view()) == Ok::<bool, Seq<char>>(held),
            Err(cause) => waited(event.deep_view()) == Err::<bool, Seq<char>>(cause@),
        },
{
    match event {
        Event::Done => Ok(true),
        Event::Failed(cause) => Err(cause),
        Event::NotCloned(cause) => Err(
            wait_failure("cloning lock fd for timeout wait", cause.as_str()),
        ),
        Event::NoThread(cause) => Err(wait_failure("spawning lock wait thread", cause.as_str())),
        _ => Ok(false),
    }
}

fn waiting_allowed(opts: &Opts) -> (allowed: bool)
    ensures
        allowed == may_wait(opts@),
{
    if opts.nonblock {
        return false;
    }
    match opts.timeout {
        Some(timeout) => !timeout_is_over(timeout),
        None => true,
    }
}

fn wait_request(opts: &Opts, target: Target) -> (step: AcquireStep<String, Vec<String>>)
    ensures
        step.deep_view() == (AcquireStepView::Ask {
            stage: Stage::Waiting,
            action: wait_action(opts@, target),
        }),
{
    let action = match wait_limit(opts.timeout) {
        Some(timeout) => Action::LockWithin { target, shared: opts.shared, timeout },
        None => Action::Lock { target, shared: opts.shared },
    };
    AcquireStep::Ask { stage: Stage::Waiting, action }
}

/// The line to print before waiting, given what reading the sidecar brought.
pub fn eprint_waiting(opts: &Opts, target: Target, contents: Option<&str>) -> (action: Action<
    String,
    Vec<String>,
>)
    ensures
        action.deep_view() == announcement(opts@, target, contents.deep_view()),
{
    let name = description(target, opts.target.as_str());
    let holder = read(contents);
    let line = match &holder {
        Some(account) => waiting(name.as_str(), Some(account.as_str())),
        None => waiting(name.as_str(), None),
    };
    Action::Print { line }
}

/// Takes the taking of a lock one step further. `last` is the stage that was
/// just gone through and what came of it, none at the start.
pub(crate) fn acquire(opts: &Opts, target: Target, last: Option<(Stage, Event<String>)>) -> (step:
    AcquireStep<String, Vec<String>>)
    requires
        last matches Some((stage, event)) ==> reaches(opts@, target, stage) && answers(
            awaited(opts@, stage),
            event,
        ),
    ensures
        step.deep_view() == acquire_step(
            opts@,
            target,
            match last {
                Some((stage, event)) => Some((stage, event.deep_view())),
                None => None,
            },
        ),
        step matches AcquireStep::Ask { stage, action } ==> reaches(opts@, target, stage)
            && query_of(action) == awaited(opts@, stage),
{
    match last {
        None => AcquireStep::Ask {
            stage: Stage::Trying,
            action: Action::TryLock { target, shared: opts.shared },
        },
        Some((stage, event)) => match stage {
            Stage::Trying => match try_lock(event) {
                Ok(true) => AcquireStep::Acquired,
                Err(cause) => AcquireStep::Failed { cause },
                Ok(false) => {
                    if !waiting_allowed(opts) {
                        return AcquireStep::Refused;
                    }
                    if !opts.verbose {
                        return wait_request(opts, target);
                    }
                    match target {
                        Target::File => AcquireStep::Ask {
                            stage: Stage::Looking,
                            action: Action::ReadFile { path: sidecar_path(opts.target.as_str(), opts.rules) },
                        },
                        Target::Descriptor(_) => AcquireStep::Ask {
                            stage: Stage::Announcing,
                            action: eprint_waiting(opts, target, None),
                        },
                    }
                },
            },
            Stage::Looking => {
                let action = match &event {
                    Event::Contents(Some(text)) => eprint_waiting(
                        opts,
                        target,
                        Some(text.as_str()),
                    ),
                    _ => eprint_waiting(opts, target, None),
                };
                AcquireStep::Ask { stage: Stage::Announcing, action }
            },
            Stage::Announcing => wait_request(opts, target),
            Stage::Waiting => match lock_with_timeout(event) {
                Ok(true) => AcquireStep::Acquired,
                Ok(false) => AcquireStep::Refused,
                Err(cause) => AcquireStep::Failed { cause },
            },
        },
    }
}

} // verus!
