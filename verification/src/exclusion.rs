//! What holds of many runs on one lock file.
//!
//! The model has processes, each in the course of a run, the open file
//! descriptions that callers lock in descriptor mode, and the kernel, which grants
//! locks on descriptions by the rules of `flock(2)`: the kernel's part is stated
//! in [`kernel_allows`], [`locks_after`] and [`Change::Conversion`]. Everything
//! happens in any order, and a process can be killed at any point. What becomes of
//! the command of a process that is killed is not part of the model.

use vstd::prelude::*;

#[allow(unused_imports)]
use crate::action::{answers, query_of, Action, ActionView, Event, EventView, Target};
#[allow(unused_imports)]
use crate::laws::{
    is_holding, is_keeping, lemma_into_holding, lemma_next_is_sound, lemma_time_out_settles, settled,
};
#[allow(unused_imports)]
use crate::options::OptsView;
#[allow(unused_imports)]
use crate::run::{first_step, is_sound, next_step, StepView};

verus! {

/// A process in the course of a run, and the open file description that it
/// locks: one of its own if it runs a command, one that its caller has open in
/// descriptor mode. A timed wait on a lock file that ran out leaves its thread
/// behind, still waiting for the lock; one on a descriptor leaves nothing.
pub struct Process {
    pub opts: OptsView,
    pub step: StepView,
    pub file: int,
    pub left_waiting: bool,
}

/// Everything that has to do with the lock on one file: the processes, the
/// descriptions that callers have open, and the locks that the kernel has
/// granted, each on a description, and shared or not.
pub struct System {
    pub processes: Map<int, Process>,
    pub callers: Set<int>,
    pub granted: Map<int, bool>,
}

/// What can happen next.
pub enum Change {
    /// A caller opens the file.
    CallerOpens { file: int },
    /// The last descriptor of a caller's description is closed, as when the
    /// caller dies.
    CallerCloses { file: int },
    /// A process starts.
    Start { pid: int, opts: OptsView, descriptors: bool, file: int },
    /// A process gets an answer to its request.
    Answer { pid: int, event: EventView },
    /// The thread that a timed wait on a lock file left behind gets the lock after
    /// all, on the description that is the process's own.
    LateGrant { pid: int },
    /// While a process asks for a lock of the other kind on a description that
    /// has one already, the kernel drops that one: it changes a lock by giving up
    /// the old one before it tries for the new one.
    Conversion { pid: int },
    /// A process exits.
    Leave { pid: int },
    /// A process is killed at whatever it is doing.
    Kill { pid: int },
}

/// Whether a process runs a command, and so has a description of its own.
pub open spec fn owns_file(process: Process) -> bool {
    process.opts.command.len() > 0
}

/// The kernel's rule: an exclusive lock excludes every other lock on the file.
pub open spec fn compatible(granted: Map<int, bool>, file: int, shared: bool) -> bool {
    forall|other: int| #[trigger]
        granted.dom().contains(other) && other != file ==> shared && granted[other]
}

/// The kind of lock that an action asks for, where it asks for one.
pub open spec fn lock_wanted(action: ActionView) -> Option<bool> {
    match action {
        Action::TryLock { shared, .. } => Some(shared),
        Action::Lock { shared, .. } => Some(shared),
        Action::LockWithin { shared, .. } => Some(shared),
        _ => None,
    }
}

/// Whether the kernel may give an answer: it grants a lock only where that is
/// compatible with the others, and calls it held by others only where it is not.
pub open spec fn kernel_allows(
    granted: Map<int, bool>,
    file: int,
    action: ActionView,
    event: EventView,
) -> bool {
    &&& answers(query_of(action), event)
    &&& lock_wanted(action) matches Some(shared) ==> {
        &&& event is Done ==> compatible(granted, file, shared)
        &&& event is WouldBlock ==> !compatible(granted, file, shared)
    }
}

/// The locks after an answer.
pub open spec fn locks_after(
    granted: Map<int, bool>,
    file: int,
    action: ActionView,
    event: EventView,
) -> Map<int, bool> {
    if lock_wanted(action) is Some && event is Done {
        granted.insert(file, lock_wanted(action)->0)
    } else if action is Close || (action is Unlock && event is Done) {
        granted.remove(file)
    } else {
        granted
    }
}

/// The system without a process. The kernel closes what the process had open,
/// which releases the lock on a description of its own.
pub open spec fn without(system: System, pid: int) -> System {
    let process = system.processes[pid];
    System {
        processes: system.processes.remove(pid),
        callers: system.callers,
        granted: if owns_file(process) {
            system.granted.remove(process.file)
        } else {
            system.granted
        },
    }
}

/// Whether no process works on a description, and no caller has it open.
pub open spec fn is_fresh(system: System, file: int) -> bool {
    &&& !system.callers.contains(file)
    &&& forall|pid: int| #[trigger]
        system.processes.dom().contains(pid) ==> system.processes[pid].file != file
}

/// Whether a change can happen.
pub open spec fn is_possible(system: System, change: Change) -> bool {
    match change {
        Change::CallerOpens { file } => is_fresh(system, file),
        Change::CallerCloses { file } => {
            &&& system.callers.contains(file)
            &&& forall|pid: int| #[trigger]
                system.processes.dom().contains(pid) ==> system.processes[pid].file != file
        },
        Change::Start { pid, opts, descriptors, file } => {
            &&& !system.processes.dom().contains(pid)
            &&& if opts.command.len() > 0 {
                is_fresh(system, file)
            } else {
                system.callers.contains(file)
            }
        },
        Change::Answer { pid, event } => {
            &&& system.processes.dom().contains(pid)
            &&& kernel_allows(
                system.granted,
                system.processes[pid].file,
                system.processes[pid].step.action,
                event,
            )
        },
        Change::LateGrant { pid } => {
            let process = system.processes[pid];
            &&& system.processes.dom().contains(pid)
            &&& process.left_waiting
            &&& compatible(system.granted, process.file, process.opts.shared)
        },
        Change::Conversion { pid } => {
            let process = system.processes[pid];
            &&& system.processes.dom().contains(pid)
            &&& lock_wanted(process.step.action) is Some
            &&& system.granted.dom().contains(process.file)
            &&& lock_wanted(process.step.action) != Some(system.granted[process.file])
        },
        Change::Leave { pid } => {
            &&& system.processes.dom().contains(pid)
            &&& system.processes[pid].step.action is Exit
        },
        Change::Kill { pid } => system.processes.dom().contains(pid),
    }
}

/// The system after a change.
pub open spec fn after(system: System, change: Change) -> System {
    match change {
        Change::CallerOpens { file } => System { callers: system.callers.insert(file), ..system },
        Change::CallerCloses { file } => System {
            callers: system.callers.remove(file),
            granted: system.granted.remove(file),
            ..system
        },
        Change::Start { pid, opts, descriptors, file } => System {
            processes: system.processes.insert(
                pid,
                Process {
                    opts,
                    step: first_step(opts, descriptors),
                    file,
                    left_waiting: false,
                },
            ),
            ..system
        },
        Change::Answer { pid, event } => {
            let process = system.processes[pid];
            System {
                processes: system.processes.insert(
                    pid,
                    Process {
                        step: next_step(process.opts, process.step.phase, event),
                        left_waiting: process.left_waiting || (event is TimedOut && owns_file(process)),
                        ..process
                    },
                ),
                granted: locks_after(system.granted, process.file, process.step.action, event),
                ..system
            }
        },
        Change::LateGrant { pid } => System {
            granted: system.granted.insert(
                system.processes[pid].file,
                system.processes[pid].opts.shared,
            ),
            ..system
        },
        Change::Conversion { pid } => System {
            granted: system.granted.remove(system.processes[pid].file),
            ..system
        },
        Change::Leave { pid } => without(system, pid),
        Change::Kill { pid } => without(system, pid),
    }
}

/// The system before anything has happened.
pub open spec fn untouched() -> System {
    System { processes: Map::empty(), callers: Set::empty(), granted: Map::empty() }
}

/// The system after a series of changes.
pub open spec fn system_after(changes: Seq<Change>) -> System
    decreases changes.len(),
{
    if changes.len() == 0 {
        untouched()
    } else {
        after(system_after(changes.drop_last()), changes.last())
    }
}

/// Whether a series of changes can happen, each after those before it.
pub open spec fn can_happen(changes: Seq<Change>) -> bool
    decreases changes.len(),
{
    changes.len() > 0 ==> {
        &&& can_happen(changes.drop_last())
        &&& is_possible(system_after(changes.drop_last()), changes.last())
    }
}

/// What holds of the system whatever has happened.
pub open spec fn is_consistent(system: System) -> bool {
    &&& forall|one: int, two: int|
        #![trigger system.granted.dom().contains(one), system.granted.dom().contains(two)]
        system.granted.dom().contains(one) && system.granted.dom().contains(two) && one != two
            ==> system.granted[one] && system.granted[two]
    &&& forall|pid: int| #[trigger]
        system.processes.dom().contains(pid) ==> {
            let process = system.processes[pid];
            &&& is_sound(process.opts, process.step)
            &&& is_holding(process.step.phase) ==> owns_file(process)
                && system.granted.dom().contains(process.file) && system.granted[process.file]
                == process.opts.shared && is_keeping(process.step.action)
            &&& owns_file(process) != system.callers.contains(process.file)
            &&& process.left_waiting ==> owns_file(process) && settled(
                process.opts,
                process.step.phase,
            ) == Some(process.opts.conflict_exit_code as int)
        }
    &&& forall|one: int, two: int|
        #![trigger system.processes.dom().contains(one), system.processes.dom().contains(two)]
        system.processes.dom().contains(one) && system.processes.dom().contains(two) && one != two
            && owns_file(system.processes[one]) ==> system.processes[one].file
            != system.processes[two].file
    &&& forall|file: int| #[trigger]
        system.granted.dom().contains(file) ==> system.callers.contains(file) || exists|pid: int|
            {
                &&& #[trigger] system.processes.dom().contains(pid)
                &&& owns_file(system.processes[pid])
                &&& system.processes[pid].file == file
            }
}

proof fn lemma_start(system: System, change: Change)
    requires
        is_consistent(system),
        is_possible(system, change),
        change is Start,
    ensures
        is_consistent(after(system, change)),
{
    let pid = change->Start_pid;
    let file = change->Start_file;
    let later = after(system, change);
    assert forall|owned: int| #[trigger] later.granted.dom().contains(owned) implies later.callers
        .contains(owned) || exists|p: int|
        {
            &&& #[trigger] later.processes.dom().contains(p)
            &&& owns_file(later.processes[p])
            &&& later.processes[p].file == owned
        } by {
        if !system.callers.contains(owned) {
            let p = choose|p: int|
                {
                    &&& #[trigger] system.processes.dom().contains(p)
                    &&& owns_file(system.processes[p])
                    &&& system.processes[p].file == owned
                };
            assert(later.processes.dom().contains(p));
            assert(later.processes[p] == system.processes[p]);
        }
    }
}

proof fn lemma_answer(system: System, change: Change)
    requires
        is_consistent(system),
        is_possible(system, change),
        change is Answer,
    ensures
        is_consistent(after(system, change)),
{
    let pid = change->Answer_pid;
    let event = change->event;
    let process = system.processes[pid];
    let later = after(system, change);
    let next = later.processes[pid];
    lemma_next_is_sound(process.opts, process.step.phase, event);
    lemma_time_out_settles(process.opts, process.step, event);
    if is_holding(next.step.phase) {
        lemma_into_holding(process.opts, process.step, event);
    }
    assert forall|p: int| #[trigger] later.processes.dom().contains(p) implies {
        let one = later.processes[p];
        &&& is_sound(one.opts, one.step)
        &&& is_holding(one.step.phase) ==> owns_file(one) && later.granted.dom().contains(one.file)
            && later.granted[one.file] == one.opts.shared && is_keeping(one.step.action)
        &&& owns_file(one) != later.callers.contains(one.file)
        &&& one.left_waiting ==> owns_file(one) && settled(one.opts, one.step.phase) == Some(
            one.opts.conflict_exit_code as int,
        )
    } by {
        assert(system.processes.dom().contains(p));
        if p != pid {
            assert(system.processes.dom().contains(pid));
            assert(later.processes[p] == system.processes[p]);
        }
    }
    assert forall|owned: int| #[trigger] later.granted.dom().contains(owned) implies later.callers
        .contains(owned) || exists|p: int|
        {
            &&& #[trigger] later.processes.dom().contains(p)
            &&& owns_file(later.processes[p])
            &&& later.processes[p].file == owned
        } by {
        if !system.callers.contains(owned) {
            if owned == process.file {
                assert(later.processes.dom().contains(pid));
            } else {
                assert(system.granted.dom().contains(owned));
                let p = choose|p: int|
                    {
                        &&& #[trigger] system.processes.dom().contains(p)
                        &&& owns_file(system.processes[p])
                        &&& system.processes[p].file == owned
                    };
                assert(later.processes.dom().contains(p));
                assert(later.processes[p] == system.processes[p]);
            }
        }
    }
}

proof fn lemma_late_grant(system: System, pid: int)
    requires
        is_consistent(system),
        is_possible(system, Change::LateGrant { pid }),
    ensures
        is_consistent(after(system, Change::LateGrant { pid })),
{
    let process = system.processes[pid];
    let later = after(system, Change::LateGrant { pid });
    assert forall|owned: int| #[trigger] later.granted.dom().contains(owned) implies later.callers
        .contains(owned) || exists|p: int|
        {
            &&& #[trigger] later.processes.dom().contains(p)
            &&& owns_file(later.processes[p])
            &&& later.processes[p].file == owned
        } by {
        if owned == process.file {
            assert(later.processes.dom().contains(pid));
        } else {
            assert(system.granted.dom().contains(owned));
        }
    }
}

proof fn lemma_conversion(system: System, pid: int)
    requires
        is_consistent(system),
        is_possible(system, Change::Conversion { pid }),
    ensures
        is_consistent(after(system, Change::Conversion { pid })),
{
    let later = after(system, Change::Conversion { pid });
    assert forall|p: int| #[trigger] later.processes.dom().contains(p) implies {
        let one = later.processes[p];
        &&& is_sound(one.opts, one.step)
        &&& is_holding(one.step.phase) ==> owns_file(one) && later.granted.dom().contains(one.file)
            && later.granted[one.file] == one.opts.shared && is_keeping(one.step.action)
        &&& owns_file(one) != later.callers.contains(one.file)
        &&& one.left_waiting ==> owns_file(one) && settled(one.opts, one.step.phase) == Some(
            one.opts.conflict_exit_code as int,
        )
    } by {
        assert(system.processes.dom().contains(p));
        assert(system.processes.dom().contains(pid));
    }
    assert forall|owned: int| #[trigger] later.granted.dom().contains(owned) implies later.callers
        .contains(owned) || exists|p: int|
        {
            &&& #[trigger] later.processes.dom().contains(p)
            &&& owns_file(later.processes[p])
            &&& later.processes[p].file == owned
        } by {
        assert(system.granted.dom().contains(owned));
    }
}

proof fn lemma_end(system: System, pid: int)
    requires
        is_consistent(system),
        system.processes.dom().contains(pid),
    ensures
        is_consistent(without(system, pid)),
{
    let later = without(system, pid);
    assert forall|p: int| #[trigger] later.processes.dom().contains(p) implies {
        let one = later.processes[p];
        &&& is_sound(one.opts, one.step)
        &&& is_holding(one.step.phase) ==> owns_file(one) && later.granted.dom().contains(one.file)
            && later.granted[one.file] == one.opts.shared && is_keeping(one.step.action)
        &&& owns_file(one) != later.callers.contains(one.file)
        &&& one.left_waiting ==> owns_file(one) && settled(one.opts, one.step.phase) == Some(
            one.opts.conflict_exit_code as int,
        )
    } by {
        assert(system.processes.dom().contains(p));
        assert(later.processes[p] == system.processes[p]);
    }
    assert forall|owned: int| #[trigger] later.granted.dom().contains(owned) implies later.callers
        .contains(owned) || exists|p: int|
        {
            &&& #[trigger] later.processes.dom().contains(p)
            &&& owns_file(later.processes[p])
            &&& later.processes[p].file == owned
        } by {
        assert(system.granted.dom().contains(owned));
        if !system.callers.contains(owned) {
            let p = choose|p: int|
                {
                    &&& #[trigger] system.processes.dom().contains(p)
                    &&& owns_file(system.processes[p])
                    &&& system.processes[p].file == owned
                };
            assert(later.processes.dom().contains(p));
            assert(later.processes[p] == system.processes[p]);
        }
    }
}

proof fn lemma_caller(system: System, change: Change)
    requires
        is_consistent(system),
        is_possible(system, change),
        change is CallerOpens || change is CallerCloses,
    ensures
        is_consistent(after(system, change)),
{
    let later = after(system, change);
    assert forall|owned: int| #[trigger] later.granted.dom().contains(owned) implies later.callers
        .contains(owned) || exists|p: int|
        {
            &&& #[trigger] later.processes.dom().contains(p)
            &&& owns_file(later.processes[p])
            &&& later.processes[p].file == owned
        } by {
        assert(system.granted.dom().contains(owned));
        if !system.callers.contains(owned) {
            let p = choose|p: int|
                {
                    &&& #[trigger] system.processes.dom().contains(p)
                    &&& owns_file(system.processes[p])
                    &&& system.processes[p].file == owned
                };
            assert(later.processes.dom().contains(p));
        }
    }
}

/// Whatever happens, in whatever order, the system stays consistent: granted
/// locks are compatible, every process that is in a phase of holding has been
/// granted its lock, a thread is left waiting only for a lock file and only where
/// the conflict exit code is settled, and no lock is left on a description that nobody has open.
pub proof fn system_stays_consistent(changes: Seq<Change>)
    requires
        can_happen(changes),
    ensures
        is_consistent(system_after(changes)),
    decreases changes.len(),
{
    if changes.len() > 0 {
        let system = system_after(changes.drop_last());
        system_stays_consistent(changes.drop_last());
        match changes.last() {
            Change::CallerOpens { .. } | Change::CallerCloses { .. } => lemma_caller(
                system,
                changes.last(),
            ),
            Change::Start { .. } => lemma_start(system, changes.last()),
            Change::Answer { .. } => lemma_answer(system, changes.last()),
            Change::LateGrant { pid } => lemma_late_grant(system, pid),
            Change::Conversion { pid } => lemma_conversion(system, pid),
            Change::Leave { pid } | Change::Kill { pid } => lemma_end(system, pid),
        }
    }
}

/// Mutual exclusion: of two processes that are alive, both hold the lock, and both
/// can be running their commands, only if both asked for a shared lock. A command
/// whose process has been killed is not among them: it may live on, but without
/// the lock, which the kernel has freed.
pub proof fn commands_exclude_each_other(changes: Seq<Change>, one: int, two: int)
    requires
        can_happen(changes),
        one != two,
        system_after(changes).processes.dom().contains(one),
        system_after(changes).processes.dom().contains(two),
        is_holding(system_after(changes).processes[one].step.phase),
        is_holding(system_after(changes).processes[two].step.phase),
    ensures
        system_after(changes).processes[one].opts.shared,
        system_after(changes).processes[two].opts.shared,
{
    system_stays_consistent(changes);
    let system = system_after(changes);
    let file = system.processes[one].file;
    let other = system.processes[two].file;
    assert(system.granted.dom().contains(file) && system.granted.dom().contains(other));
}

/// A command under an exclusive lock is also alone with respect to descriptor
/// mode: while its process holds the lock, no description of a caller is locked; and beside one
/// under a shared lock, none is locked exclusively.
pub proof fn commands_exclude_descriptor_locks(changes: Seq<Change>, pid: int, file: int)
    requires
        can_happen(changes),
        system_after(changes).processes.dom().contains(pid),
        is_holding(system_after(changes).processes[pid].step.phase),
        system_after(changes).callers.contains(file),
        system_after(changes).granted.dom().contains(file),
    ensures
        system_after(changes).processes[pid].opts.shared,
        system_after(changes).granted[file],
{
    system_stays_consistent(changes);
    let system = system_after(changes);
    assert(system.granted.dom().contains(system.processes[pid].file));
}

/// Whether an attempt to get a lock without waiting must succeed unless it fails
/// for another reason: `file` may have it now.
pub open spec fn is_free_for(granted: Map<int, bool>, file: int, shared: bool) -> bool {
    forall|action: ActionView| #[trigger]
        lock_wanted(action) == Some(shared) ==> {
            &&& kernel_allows(granted, file, action, Event::Done)
            &&& !kernel_allows(granted, file, action, Event::WouldBlock)
        }
}

/// A lock is there for the taking exactly where it is compatible with those that
/// others hold. So shared locks coexist, and an exclusive one is refused as long
/// as anyone else holds any.
pub proof fn only_conflicts_refuse(granted: Map<int, bool>, file: int, shared: bool)
    ensures
        is_free_for(granted, file, shared) <==> compatible(granted, file, shared),
        shared ==> (compatible(granted, file, shared) <==> forall|other: int| #[trigger]
            granted.dom().contains(other) && other != file ==> granted[other]),
        !shared ==> (compatible(granted, file, shared) <==> forall|other: int| #[trigger]
            granted.dom().contains(other) ==> other == file),
{
    let attempt = ActionView::TryLock { target: Target::File, shared };
    assert(lock_wanted(attempt) == Some(shared));
}

/// The end of a process that runs a command frees the lock: when it exits, or is
/// killed at any point, the lock it may have held is gone, even one that only a
/// thread left behind had got hold of; and if nobody else is in the way, the next
/// to ask gets it. A lock that was taken in descriptor mode stays, as
/// [`descriptor_lock_stays_with_the_caller`] says.
pub proof fn the_end_frees_the_lock(
    changes: Seq<Change>,
    pid: int,
    end: Change,
    file: int,
    shared: bool,
)
    requires
        can_happen(changes),
        system_after(changes).processes.dom().contains(pid),
        owns_file(system_after(changes).processes[pid]),
        end == (Change::Kill { pid }) || (end == (Change::Leave { pid }) && system_after(
            changes,
        ).processes[pid].step.action is Exit),
    ensures
        can_happen(changes.push(end)),
        ({
            let gone = system_after(changes).processes[pid];
            let later = system_after(changes.push(end));
            &&& !later.granted.dom().contains(gone.file)
            &&& (forall|other: int| #[trigger]
                system_after(changes).granted.dom().contains(other) && other != file && other
                    != gone.file ==> shared && system_after(changes).granted[other])
                ==> is_free_for(later.granted, file, shared)
        }),
{
    assert(changes.push(end).drop_last() =~= changes);
    let later = system_after(changes.push(end));
    only_conflicts_refuse(later.granted, file, shared);
}

/// The exit of a process in descriptor mode, or its death, changes no lock: what
/// it locked stays locked as long as its caller has the description open.
pub proof fn descriptor_lock_stays_with_the_caller(changes: Seq<Change>, pid: int, end: Change)
    requires
        can_happen(changes),
        system_after(changes).processes.dom().contains(pid),
        !owns_file(system_after(changes).processes[pid]),
        end == (Change::Leave { pid }) || end == (Change::Kill { pid }),
    ensures
        system_after(changes.push(end)).granted == system_after(changes).granted,
        system_after(changes.push(end)).callers == system_after(changes).callers,
{
    assert(changes.push(end).drop_last() =~= changes);
}

/// No lock that comes too late outlives the process: where the thread that a timed
/// wait left behind gets the lock after all, it is on a description of the
/// process's own, and gone with the process.
pub proof fn late_lock_goes_with_the_process(changes: Seq<Change>, pid: int, end: Change)
    requires
        can_happen(changes),
        is_possible(system_after(changes), Change::LateGrant { pid }),
        end == (Change::Kill { pid }) || (end == (Change::Leave { pid }) && system_after(
            changes,
        ).processes[pid].step.action is Exit),
    ensures
        ({
            let process = system_after(changes).processes[pid];
            let series = changes.push(Change::LateGrant { pid }).push(end);
            &&& owns_file(process)
            &&& can_happen(series)
            &&& !system_after(series).granted.dom().contains(process.file)
        }),
{
    let late = changes.push(Change::LateGrant { pid });
    assert(late.drop_last() =~= changes);
    assert(late.push(end).drop_last() =~= late);
    assert(late.last() == (Change::LateGrant { pid }));
    assert(late.push(end).last() == end);
    system_stays_consistent(changes);
    assert(system_after(changes).processes.dom().contains(pid));
    assert(can_happen(late));
    assert(system_after(late) == after(system_after(changes), Change::LateGrant { pid }));
    assert(system_after(late.push(end)) == without(system_after(late), pid));
}

/// Whether a change is one of what a process does or is told.
pub open spec fn is_of(change: Change, pid: int) -> bool {
    match change {
        Change::Answer { pid: of, .. } => of == pid,
        Change::LateGrant { pid: of } => of == pid,
        Change::Conversion { pid: of } => of == pid,
        Change::Leave { pid: of } => of == pid,
        Change::Kill { pid: of } => of == pid,
        _ => false,
    }
}

/// A process in descriptor mode locks nothing but by being told that it has the
/// lock, and then it is bound to exit with 0. So where it is told anything else,
/// that the time ran out above all, and from the point on where its exit code is
/// settled to its end, it adds no lock to those that are there.
pub proof fn refused_descriptor_is_not_locked(changes: Seq<Change>, pid: int, change: Change)
    requires
        can_happen(changes.push(change)),
        system_after(changes).processes.dom().contains(pid),
        !owns_file(system_after(changes).processes[pid]),
        is_of(change, pid),
    ensures
        ({
            let process = system_after(changes).processes[pid];
            let later = system_after(changes.push(change));
            if settled(process.opts, process.step.phase) is None && lock_wanted(
                process.step.action,
            ) is Some && change == (Change::Answer { pid, event: Event::Done }) {
                settled(later.processes[pid].opts, later.processes[pid].step.phase) == Some(0int)
            } else {
                later.granted.submap_of(system_after(changes).granted)
            }
        }),
{
    assert(changes.push(change).drop_last() =~= changes);
    assert(changes.push(change).last() == change);
    system_stays_consistent(changes);
    let process = system_after(changes).processes[pid];
    assert(is_sound(process.opts, process.step));
}

/// Taking a lock of the other kind on a description can cost the one that was
/// there: an attempt may be told that others are in the way, and nothing is locked
/// then. Other descriptions keep what they have.
pub proof fn conversion_can_lose_the_lock(changes: Seq<Change>, pid: int)
    requires
        can_happen(changes),
        is_possible(system_after(changes), Change::Conversion { pid }),
    ensures
        ({
            let file = system_after(changes).processes[pid].file;
            let later = system_after(changes.push(Change::Conversion { pid }));
            &&& can_happen(changes.push(Change::Conversion { pid }))
            &&& !owns_file(system_after(changes).processes[pid]) ==> later.callers.contains(file)
            &&& later.granted == system_after(changes).granted.remove(file)
            &&& later.processes == system_after(changes).processes
        }),
{
    assert(changes.push(Change::Conversion { pid }).drop_last() =~= changes);
    system_stays_consistent(changes);
    assert(system_after(changes).processes.dom().contains(pid));
}

/// The lock of a description goes when its caller closes it, and when it is
/// given up with `-u`.
pub proof fn descriptor_lock_goes_with_the_caller(
    changes: Seq<Change>,
    file: int,
    pid: int,
    event: EventView,
)
    requires
        can_happen(changes),
    ensures
        !system_after(changes.push(Change::CallerCloses { file })).granted.dom().contains(file),
        system_after(changes).processes[pid].step.action is Unlock && event is Done
            ==> !system_after(changes.push(Change::Answer { pid, event })).granted.dom().contains(
            system_after(changes).processes[pid].file,
        ),
{
    assert(changes.push(Change::CallerCloses { file }).drop_last() =~= changes);
    assert(changes.push(Change::Answer { pid, event }).drop_last() =~= changes);
}

/// There are no stale locks: with no process left and no caller's description
/// open, nothing is locked, whatever became of those that were.
pub proof fn no_lock_is_left_behind(changes: Seq<Change>)
    requires
        can_happen(changes),
        forall|pid: int| !#[trigger] system_after(changes).processes.dom().contains(pid),
        forall|file: int| !#[trigger] system_after(changes).callers.contains(file),
    ensures
        forall|file: int| !#[trigger] system_after(changes).granted.dom().contains(file),
{
    system_stays_consistent(changes);
}

} // verus!
