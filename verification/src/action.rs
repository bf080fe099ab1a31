//! What a run asks of the program around it, and what it is told in return.

use vstd::prelude::*;

#[allow(unused_imports)]
use crate::exit::is_end;

verus! {

/// What a lock is asked for on.
#[derive(Clone, Copy, Debug, PartialEq, Eq, Structural)]
pub enum Target {
    /// The lock file that was opened.
    File,
    /// A descriptor that the caller had open already.
    Descriptor(i32),
}

/// How a file is opened.
#[derive(Clone, Copy, Debug, PartialEq, Eq, Structural)]
pub struct OpenMode {
    pub read: bool,
    pub write: bool,
    pub create: bool,
    pub truncate: bool,
}

/// Work that only the surrounding program can do. Each request but the last is
/// answered by an [`Event`].
///
/// `S` is the type of a text and `L` that of a list of texts: `String` and
/// `Vec<String>` in a running program, sequences in a contract.
#[derive(Debug, PartialEq, Eq)]
pub enum Action<S, L> {
    /// Open the lock file.
    Open { path: S, mode: OpenMode },
    /// Note the time.
    StartTimer,
    /// Take the lock if that needs no waiting.
    TryLock { target: Target, shared: bool },
    /// Take the lock, however long that takes.
    Lock { target: Target, shared: bool },
    /// Take the lock, but give up after `timeout`, the bits of a number of seconds
    /// that is positive and below 2 to the 64th power.
    ///
    /// For the lock file a thread may still be waiting when the time is over: what
    /// it gets goes with the process. For a descriptor, which stays open with the
    /// caller, nothing may be left that could yet take the lock.
    LockWithin { target: Target, shared: bool, timeout: u64 },
    /// Give up the lock on a descriptor and leave the descriptor open.
    Unlock { fd: i32 },
    /// Read a file as text.
    ReadFile { path: S },
    /// Tell the seconds since the timer was started, to three decimals.
    ReadTimer,
    /// Write a line to the standard error stream.
    Print { line: S },
    /// Tell this process's id and the time.
    Identify,
    /// Write a whole file.
    WriteFile { path: S, contents: S },
    /// Move a file.
    Rename { from: S, to: S },
    /// Delete a file.
    RemoveFile { path: S },
    /// Run a command to its end.
    Spawn { program: S, args: L },
    /// Close the lock file, which gives up the lock.
    Close,
    /// End the process. Nothing answers this.
    Exit { code: i32 },
}

impl<S: DeepView, L: DeepView> DeepView for Action<S, L> {
    type V = Action<S::V, L::V>;

    open spec fn deep_view(&self) -> Action<S::V, L::V> {
        match *self {
            Action::Open { path, mode } => Action::Open { path: path.deep_view(), mode },
            Action::StartTimer => Action::StartTimer,
            Action::TryLock { target, shared } => Action::TryLock { target, shared },
            Action::Lock { target, shared } => Action::Lock { target, shared },
            Action::LockWithin { target, shared, timeout } => Action::LockWithin {
                target,
                shared,
                timeout,
            },
            Action::Unlock { fd } => Action::Unlock { fd },
            Action::ReadFile { path } => Action::ReadFile { path: path.deep_view() },
            Action::ReadTimer => Action::ReadTimer,
            Action::Print { line } => Action::Print { line: line.deep_view() },
            Action::Identify => Action::Identify,
            Action::WriteFile { path, contents } => Action::WriteFile {
                path: path.deep_view(),
                contents: contents.deep_view(),
            },
            Action::Rename { from, to } => Action::Rename {
                from: from.deep_view(),
                to: to.deep_view(),
            },
            Action::RemoveFile { path } => Action::RemoveFile { path: path.deep_view() },
            Action::Spawn { program, args } => Action::Spawn {
                program: program.deep_view(),
                args: args.deep_view(),
            },
            Action::Close => Action::Close,
            Action::Exit { code } => Action::Exit { code },
        }
    }
}

/// Why a command could not be started.
#[derive(Clone, Copy, Debug, PartialEq, Eq, Structural)]
pub enum SpawnFault {
    NotFound,
    PermissionDenied,
    Other,
}

/// What came of an [`Action`].
#[derive(Debug, PartialEq, Eq)]
pub enum Event<S> {
    /// It was carried out; of a request for the lock: the lock is held.
    Done,
    /// It failed, for the reason given in the system's words.
    Failed(S),
    /// `TryLock`: someone else holds the lock.
    WouldBlock,
    /// `LockWithin`: the time ran out.
    TimedOut,
    /// `LockWithin`: the waiting thread ended without a word.
    Disconnected,
    /// `LockWithin`: the descriptor could not be cloned for the waiting thread.
    NotCloned(S),
    /// `LockWithin`: the waiting thread could not be started.
    NoThread(S),
    /// `ReadFile`: the text, where there was one to read.
    Contents(Option<S>),
    /// `ReadTimer`: the seconds.
    Seconds(S),
    /// `Identify`: the process id, and the seconds since the epoch unless the
    /// clock stands before it.
    Identity { pid: u32, since_epoch: Option<u64> },
    /// `Spawn`: the command ran, and ended with a code or by a signal.
    Ended { code: Option<i32>, signal: Option<i32> },
    /// `Spawn`: the command did not run.
    NotSpawned { fault: SpawnFault, cause: S },
}

impl<S: DeepView> DeepView for Event<S> {
    type V = Event<S::V>;

    open spec fn deep_view(&self) -> Event<S::V> {
        match *self {
            Event::Done => Event::Done,
            Event::Failed(cause) => Event::Failed(cause.deep_view()),
            Event::WouldBlock => Event::WouldBlock,
            Event::TimedOut => Event::TimedOut,
            Event::Disconnected => Event::Disconnected,
            Event::NotCloned(cause) => Event::NotCloned(cause.deep_view()),
            Event::NoThread(cause) => Event::NoThread(cause.deep_view()),
            Event::Contents(text) => Event::Contents(text.deep_view()),
            Event::Seconds(text) => Event::Seconds(text.deep_view()),
            Event::Identity { pid, since_epoch } => Event::Identity { pid, since_epoch },
            Event::Ended { code, signal } => Event::Ended { code, signal },
            Event::NotSpawned { fault, cause } => Event::NotSpawned {
                fault,
                cause: cause.deep_view(),
            },
        }
    }
}

/// An action as contracts see it.
pub type ActionView = Action<Seq<char>, Seq<Seq<char>>>;

/// An event as contracts see it.
pub type EventView = Event<Seq<char>>;

/// The kinds of answers that actions get.
#[derive(Clone, Copy, Debug, PartialEq, Eq, Structural)]
pub enum Query {
    /// It is done.
    Plain,
    /// It is done or has failed.
    Fallible,
    /// A lock that is taken only where that needs no waiting.
    Attempt,
    /// A wait for a lock that ends with its time.
    TimedWait,
    /// A file's text.
    Text,
    /// A number of seconds.
    Time,
    /// A process id and a time.
    Identity,
    /// A command's end.
    Command,
    /// No answer.
    Nothing,
}

/// The kind of answer that an action gets.
pub open spec fn query_of<S, L>(action: Action<S, L>) -> Query {
    match action {
        Action::StartTimer | Action::Print { .. } | Action::Close => Query::Plain,
        Action::Open { .. } | Action::Lock { .. } | Action::Unlock { .. } | Action::WriteFile {
            ..
        } | Action::Rename { .. } | Action::RemoveFile { .. } => Query::Fallible,
        Action::TryLock { .. } => Query::Attempt,
        Action::LockWithin { .. } => Query::TimedWait,
        Action::ReadFile { .. } => Query::Text,
        Action::ReadTimer => Query::Time,
        Action::Identify => Query::Identity,
        Action::Spawn { .. } => Query::Command,
        Action::Exit { .. } => Query::Nothing,
    }
}

/// Whether an event is an answer of a kind.
pub open spec fn answers<S>(query: Query, event: Event<S>) -> bool {
    match query {
        Query::Plain => event is Done,
        Query::Fallible => event is Done || event is Failed,
        Query::Attempt => event is Done || event is Failed || event is WouldBlock,
        Query::TimedWait => event is Done || event is Failed || event is TimedOut
            || event is Disconnected || event is NotCloned || event is NoThread,
        Query::Text => event is Contents,
        Query::Time => event is Seconds,
        Query::Identity => event is Identity,
        Query::Command => match event {
            Event::Ended { code, signal } => is_end(code, signal),
            Event::NotSpawned { .. } => true,
            _ => false,
        },
        Query::Nothing => false,
    }
}

/// The kind of answer that an action gets.
pub fn query(action: &Action<String, Vec<String>>) -> (kind: Query)
    ensures
        kind == query_of(*action),
{
    match action {
        Action::StartTimer => Query::Plain,
        Action::Print { .. } => Query::Plain,
        Action::Close => Query::Plain,
        Action::Open { .. } => Query::Fallible,
        Action::Lock { .. } => Query::Fallible,
        Action::Unlock { .. } => Query::Fallible,
        Action::WriteFile { .. } => Query::Fallible,
        Action::Rename { .. } => Query::Fallible,
        Action::RemoveFile { .. } => Query::Fallible,
        Action::TryLock { .. } => Query::Attempt,
        Action::LockWithin { .. } => Query::TimedWait,
        Action::ReadFile { .. } => Query::Text,
        Action::ReadTimer => Query::Time,
        Action::Identify => Query::Identity,
        Action::Spawn { .. } => Query::Command,
        Action::Exit { .. } => Query::Nothing,
    }
}

/// Whether an event is an answer of a kind.
pub fn is_answer(query: Query, event: &Event<String>) -> (fits: bool)
    ensures
        fits == answers(query, *event),
{
    match query {
        Query::Plain => matches!(event, Event::Done),
        Query::Fallible => matches!(event, Event::Done | Event::Failed(_)),
        Query::Attempt => matches!(event, Event::Done | Event::Failed(_) | Event::WouldBlock),
        Query::TimedWait => matches!(
            event,
            Event::Done | Event::Failed(_) | Event::TimedOut | Event::Disconnected
                | Event::NotCloned(_) | Event::NoThread(_)
        ),
        Query::Text => matches!(event, Event::Contents(_)),
        Query::Time => matches!(event, Event::Seconds(_)),
        Query::Identity => matches!(event, Event::Identity { .. }),
        Query::Command => match event {
            Event::Ended { code: Some(_), .. } => true,
            Event::Ended { code: None, signal: Some(number) } => 1 <= *number && *number <= i32::MAX
                - 128,
            Event::Ended { code: None, signal: None } => true,
            Event::NotSpawned { .. } => true,
            _ => false,
        },
        Query::Nothing => false,
    }
}

/// What counts as an answer to each request: that it is done, to every request but
/// those that ask to be told something; that it failed, to those that work on a file,
/// a lock or a descriptor; that others hold the lock, to an attempt; how a wait with a
/// limit can end, to such a wait; and to a request to be told something, just that.
/// Nothing answers the request to exit.
pub proof fn each_request_has_its_answers(action: ActionView, event: EventView)
    ensures
        answers(query_of(action), event) <==> match event {
            Event::Done => match action {
                Action::ReadFile { .. } | Action::ReadTimer | Action::Identify | Action::Spawn {
                    ..
                } | Action::Exit { .. } => false,
                _ => true,
            },
            Event::Failed(_) => match action {
                Action::Open { .. } | Action::TryLock { .. } | Action::Lock { .. }
                | Action::LockWithin { .. } | Action::Unlock { .. } | Action::WriteFile { .. }
                | Action::Rename { .. } | Action::RemoveFile { .. } => true,
                _ => false,
            },
            Event::WouldBlock => action is TryLock,
            Event::TimedOut | Event::Disconnected | Event::NotCloned(_) | Event::NoThread(_) =>
            action is LockWithin,
            Event::Contents(_) => action is ReadFile,
            Event::Seconds(_) => action is ReadTimer,
            Event::Identity { .. } => action is Identify,
            Event::Ended { code: Some(_), .. } => action is Spawn,
            Event::Ended { code: None, signal: Some(number) } => action is Spawn && 1 <= number
                && number + 128 <= i32::MAX,
            Event::Ended { code: None, signal: None } => action is Spawn,
            Event::NotSpawned { .. } => action is Spawn,
        },
{
}

/// Contracts speak of events as they are, with the texts in them.
pub proof fn events_are_seen_whole(event: Event<String>)
    ensures
        match event {
            Event::Done => event.deep_view() is Done,
            Event::Failed(cause) => event.deep_view() == EventView::Failed(cause@),
            Event::WouldBlock => event.deep_view() is WouldBlock,
            Event::TimedOut => event.deep_view() is TimedOut,
            Event::Disconnected => event.deep_view() is Disconnected,
            Event::NotCloned(cause) => event.deep_view() == EventView::NotCloned(cause@),
            Event::NoThread(cause) => event.deep_view() == EventView::NoThread(cause@),
            Event::Contents(Some(text)) => event.deep_view() == EventView::Contents(Some(text@)),
            Event::Contents(None) => event.deep_view() == EventView::Contents(None),
            Event::Seconds(text) => event.deep_view() == EventView::Seconds(text@),
            Event::Identity { pid, since_epoch } => event.deep_view() == (EventView::Identity {
                pid,
                since_epoch,
            }),
            Event::Ended { code, signal } => event.deep_view() == (EventView::Ended {
                code,
                signal,
            }),
            Event::NotSpawned { fault, cause } => event.deep_view() == (EventView::NotSpawned {
                fault,
                cause: cause@,
            }),
        },
        forall|query: Query| answers(query, event) == #[trigger] answers(query, event.deep_view()),
{
}

/// Contracts speak of requests as they are, with the texts in them.
pub proof fn requests_are_seen_whole(action: Action<String, Vec<String>>)
    ensures
        match action {
            Action::Open { path, mode } => action.deep_view() == (ActionView::Open {
                path: path@,
                mode,
            }),
            Action::StartTimer => action.deep_view() is StartTimer,
            Action::TryLock { target, shared } => action.deep_view() == (ActionView::TryLock {
                target,
                shared,
            }),
            Action::Lock { target, shared } => action.deep_view() == (ActionView::Lock {
                target,
                shared,
            }),
            Action::LockWithin { target, shared, timeout } => action.deep_view() == (
            ActionView::LockWithin { target, shared, timeout }),
            Action::Unlock { fd } => action.deep_view() == (ActionView::Unlock { fd }),
            Action::ReadFile { path } => action.deep_view() == (ActionView::ReadFile {
                path: path@,
            }),
            Action::ReadTimer => action.deep_view() is ReadTimer,
            Action::Print { line } => action.deep_view() == (ActionView::Print { line: line@ }),
            Action::Identify => action.deep_view() is Identify,
            Action::WriteFile { path, contents } => action.deep_view() == (ActionView::WriteFile {
                path: path@,
                contents: contents@,
            }),
            Action::Rename { from, to } => action.deep_view() == (ActionView::Rename {
                from: from@,
                to: to@,
            }),
            Action::RemoveFile { path } => action.deep_view() == (ActionView::RemoveFile {
                path: path@,
            }),
            Action::Spawn { program, args } => action.deep_view() matches ActionView::Spawn {
                program: seen,
                args: list,
            } && seen == program@ && list.len() == args@.len() && forall|i: int|
                0 <= i < args@.len() ==> #[trigger] list[i] == args@[i]@,
            Action::Close => action.deep_view() is Close,
            Action::Exit { code } => action.deep_view() == (ActionView::Exit { code }),
        },
        query_of(action) == query_of(action.deep_view()),
{
}

} // verus!
