//! Whole runs against a small world of files, locks, commands and time.

use std::collections::BTreeMap;

use flock::action::{is_answer, query, Action, Event, OpenMode, Query, SpawnFault, Target};
use flock::options::Opts;
use flock::paths::PathRules;
use flock::run::Run;

type Request = Action<String, Vec<String>>;

/// What a command does, one thing at a time.
#[derive(Clone, Debug)]
enum Deed {
    /// Remember the counter's value.
    Load,
    /// Set the counter to one more than was remembered.
    Store,
    /// Add a line to the log.
    Log(&'static str),
    /// Let so many seconds pass.
    Sleep(f64),
    /// End with a code.
    End(i32),
    /// End by a signal.
    Die(i32),
}

struct Process {
    run: Option<Run>,
    request: Request,
    file: usize,
    deeds: Vec<Deed>,
    loaded: usize,
    running: bool,
    fault: Option<(SpawnFault, &'static str)>,
    since: f64,
    printed: Vec<String>,
    requests: Vec<String>,
    exit: Option<i32>,
    wakes: f64,
}

struct World {
    files: BTreeMap<String, String>,
    /// Open file descriptions with a lock, and whether it is shared.
    locks: BTreeMap<usize, bool>,
    processes: Vec<Process>,
    counter: usize,
    log: Vec<&'static str>,
    now: f64,
    seed: u64,
    next_file: usize,
    read_only: bool,
    sidecars_fail: bool,
}

impl Process {
    fn opts(&self) -> &Opts {
        self.run.as_ref().unwrap().options()
    }
}

impl World {
    fn new() -> World {
        World {
            files: BTreeMap::new(),
            locks: BTreeMap::new(),
            processes: Vec::new(),
            counter: 0,
            log: Vec::new(),
            now: 0.0,
            seed: 1,
            next_file: 1000,
            read_only: false,
            sidecars_fail: false,
        }
    }

    fn pick(&mut self, n: usize) -> usize {
        self.seed = self.seed.wrapping_mul(6364136223846793005).wrapping_add(1442695040888963407);
        (self.seed >> 33) as usize % n
    }

    fn start(&mut self, opts: Opts, deeds: Vec<Deed>) -> usize {
        let file = self.next_file;
        self.next_file += 1;
        self.start_on(opts, deeds, file)
    }

    fn start_on(&mut self, opts: Opts, deeds: Vec<Deed>, file: usize) -> usize {
        let (run, request) = Run::begin(opts, true);
        self.processes.push(Process {
            run: Some(run),
            request,
            file,
            deeds,
            loaded: 0,
            running: false,
            fault: None,
            since: self.now,
            printed: Vec::new(),
            requests: Vec::new(),
            exit: None,
            wakes: 0.0,
        });
        self.processes.len() - 1
    }

    fn is_compatible(&self, file: usize, shared: bool) -> bool {
        self.locks.iter().all(|(other, kind)| *other == file || (shared && *kind))
    }

    fn open(&mut self, path: &str, mode: OpenMode) -> Event<String> {
        if mode.write && self.read_only {
            return Event::Failed("Read-only file system (os error 30)".to_string());
        }
        if !self.files.contains_key(path) {
            if !mode.create {
                return Event::Failed("No such file or directory (os error 2)".to_string());
            }
            self.files.insert(path.to_string(), String::new());
        }
        if mode.truncate {
            self.files.insert(path.to_string(), String::new());
        }
        Event::Done
    }

    /// Works on the request of a process; nothing comes of it yet where the
    /// process has to wait.
    fn perform(&mut self, pid: usize) -> Option<Event<String>> {
        let file = self.processes[pid].file;
        let lock = |target: &Target, opts: &Opts| match target {
            Target::File => assert!(!opts.command.is_empty()),
            Target::Descriptor(fd) => assert_eq!(fd.to_string(), opts.target),
        };
        let opts = self.processes[pid].opts();
        match &self.processes[pid].request {
            Action::Open { path, mode } => {
                let (path, mode) = (path.clone(), *mode);
                Some(self.open(&path, mode))
            }
            Action::StartTimer => Some(Event::Done),
            Action::TryLock { target, shared } => {
                lock(target, opts);
                let shared = *shared;
                if self.is_compatible(file, shared) {
                    self.locks.insert(file, shared);
                    Some(Event::Done)
                } else {
                    Some(Event::WouldBlock)
                }
            }
            Action::Lock { target, shared } => {
                lock(target, opts);
                let shared = *shared;
                if self.is_compatible(file, shared) {
                    self.locks.insert(file, shared);
                    Some(Event::Done)
                } else {
                    None
                }
            }
            Action::LockWithin { target, shared, timeout } => {
                lock(target, opts);
                let (shared, limit) = (*shared, f64::from_bits(*timeout));
                if self.is_compatible(file, shared) {
                    self.locks.insert(file, shared);
                    Some(Event::Done)
                } else if self.now >= self.processes[pid].since + limit {
                    Some(Event::TimedOut)
                } else {
                    None
                }
            }
            Action::Unlock { fd } => {
                assert_eq!(fd.to_string(), opts.target);
                self.locks.remove(&file);
                Some(Event::Done)
            }
            Action::ReadFile { path } => Some(Event::Contents(self.files.get(path).cloned())),
            Action::ReadTimer => Some(Event::Seconds("0.000".to_string())),
            Action::Print { line } => {
                let line = line.clone();
                self.processes[pid].printed.push(line);
                Some(Event::Done)
            }
            Action::Identify => {
                Some(Event::Identity { pid: pid as u32, since_epoch: Some(1_700_000_000) })
            }
            Action::WriteFile { path, contents } => {
                if self.sidecars_fail {
                    return Some(Event::Failed("No space left on device (os error 28)".to_string()));
                }
                let (path, contents) = (path.clone(), contents.clone());
                self.files.insert(path, contents);
                Some(Event::Done)
            }
            Action::Rename { from, to } => {
                let (from, to) = (from.clone(), to.clone());
                match self.files.remove(&from) {
                    Some(text) => {
                        self.files.insert(to, text);
                        Some(Event::Done)
                    }
                    None => Some(Event::Failed("No such file or directory (os error 2)".to_string())),
                }
            }
            Action::RemoveFile { path } => {
                let path = path.clone();
                match self.files.remove(&path) {
                    Some(_) => Some(Event::Done),
                    None => Some(Event::Failed("No such file or directory (os error 2)".to_string())),
                }
            }
            Action::Spawn { program, args } => {
                assert_eq!(program, &opts.command[0]);
                assert_eq!(args[..], opts.command[1..]);
                if let Some((fault, cause)) = self.processes[pid].fault {
                    return Some(Event::NotSpawned { fault, cause: cause.to_string() });
                }
                self.processes[pid].running = true;
                assert!(self.locks.contains_key(&file), "a command ran without the lock");
                if self.now < self.processes[pid].wakes {
                    return None;
                }
                if self.processes[pid].deeds.is_empty() {
                    return Some(Event::Ended { code: Some(0), signal: None });
                }
                match self.processes[pid].deeds.remove(0) {
                    Deed::Load => self.processes[pid].loaded = self.counter,
                    Deed::Store => self.counter = self.processes[pid].loaded + 1,
                    Deed::Log(line) => self.log.push(line),
                    Deed::Sleep(seconds) => self.processes[pid].wakes = self.now + seconds,
                    Deed::End(code) => return Some(Event::Ended { code: Some(code), signal: None }),
                    Deed::Die(signal) => {
                        return Some(Event::Ended { code: None, signal: Some(signal) })
                    }
                }
                None
            }
            Action::Close => {
                self.locks.remove(&file);
                Some(Event::Done)
            }
            Action::Exit { code } => {
                let code = *code;
                self.processes[pid].exit = Some(code);
                if !self.processes[pid].opts().command.is_empty() {
                    self.locks.remove(&file);
                }
                None
            }
        }
    }

    /// Gives a process its turn.
    fn turn(&mut self, pid: usize) {
        if self.processes[pid].exit.is_some() {
            return;
        }
        if let Some(event) = self.perform(pid) {
            let process = &mut self.processes[pid];
            process.requests.push(format!("{:?}", process.request));
            assert!(is_answer(query(&process.request), &event));
            let (run, request) = carry_on(process.run.take().unwrap(), event);
            process.run = Some(run);
            process.request = request;
            process.since = self.now;
        }
    }

    /// Lets the world go on until all of the given processes have exited.
    fn finish(&mut self, pids: &[usize]) {
        for _ in 0..2_000_000 {
            if pids.iter().all(|pid| self.processes[*pid].exit.is_some()) {
                return;
            }
            let pid = self.pick(self.processes.len());
            self.turn(pid);
            self.now += 0.001;
        }
        panic!("no end in sight");
    }

    /// Runs one process to its end, with the others going on as well.
    fn complete(&mut self, opts: Opts) -> usize {
        let pid = self.start(opts, Vec::new());
        self.finish(&[pid]);
        pid
    }

    fn code(&self, pid: usize) -> i32 {
        self.processes[pid].exit.unwrap()
    }

    /// Lets the world go on until a process runs its command.
    fn hold(&mut self, opts: Opts) -> usize {
        let pid = self.start(opts, vec![Deed::Sleep(1e9)]);
        for _ in 0..100_000 {
            if self.processes[pid].running {
                return pid;
            }
            let turn = self.pick(self.processes.len());
            self.turn(turn);
        }
        panic!("the lock was not had");
    }

    /// Ends a process at whatever it is doing, as `SIGKILL` does.
    fn kill(&mut self, pid: usize) {
        self.processes[pid].exit = Some(137);
        let file = self.processes[pid].file;
        self.locks.remove(&file);
    }

    fn is_free(&mut self) -> bool {
        let pid = self.complete(Opts { nonblock: true, ..wrap(&["true"]) });
        self.code(pid) == 0
    }
}

/// Carries a run on with an answer that fits.
fn carry_on(run: Run, event: Event<String>) -> (Run, Request) {
    match run.resume(event) {
        Ok(next) => next,
        Err((_, event)) => panic!("{event:?} is no answer"),
    }
}

fn wrap(command: &[&str]) -> Opts {
    Opts {
        nonblock: false,
        timeout: None,
        shared: false,
        exclusive: false,
        conflict_exit_code: 1,
        label: None,
        unlock: false,
        verbose: false,
        rules: PathRules::of_this_platform(),
        target: "lock".to_string(),
        command: command.iter().map(|s| s.to_string()).collect(),
    }
}

fn descriptor(target: &str) -> Opts {
    Opts { target: target.to_string(), ..wrap(&[]) }
}

fn within(seconds: f64) -> Option<u64> {
    Some(seconds.to_bits())
}

#[test]
fn mutual_exclusion_no_lost_updates() {
    let mut world = World::new();
    for round in 0..8 {
        world.counter = 0;
        let workers: Vec<usize> = (0..16)
            .map(|_| {
                world.start(wrap(&["sh"]), vec![Deed::Load, Deed::Sleep(0.02), Deed::Store])
            })
            .collect();
        world.finish(&workers);
        assert!(workers.iter().all(|pid| world.code(*pid) == 0));
        assert_eq!(world.counter, 16);
        assert!(world.is_free(), "lock not free after round {round}");
    }
}

#[test]
fn mutual_exclusion_no_interleave() {
    let mut world = World::new();
    let workers: Vec<usize> = (0..12)
        .map(|_| {
            world.start(wrap(&["sh"]), vec![Deed::Log("S"), Deed::Sleep(0.02), Deed::Log("E")])
        })
        .collect();
    world.finish(&workers);
    assert!(workers.iter().all(|pid| world.code(*pid) == 0));
    assert_eq!(world.log.len(), 12 * 2);
    for (i, marker) in world.log.iter().enumerate() {
        assert_eq!(*marker, if i % 2 == 0 { "S" } else { "E" });
    }
}

#[test]
fn sigkill_releases_lock() {
    let mut world = World::new();
    let holder = world.hold(wrap(&["sleep", "30"]));
    world.kill(holder);
    let start = world.now;
    let waiter = world.complete(Opts { timeout: within(5.0), ..wrap(&["true"]) });
    assert_eq!(world.code(waiter), 0);
    assert!(world.now - start < 5.0);
    // The dead holder's sidecar was overwritten, and is gone with the waiter.
    assert_eq!(world.files.keys().collect::<Vec<_>>(), ["lock"]);
}

#[test]
fn nonblock_fails_fast_when_held() {
    let mut world = World::new();
    world.hold(wrap(&["sleep", "30"]));
    let start = world.now;
    let pid = world.complete(Opts { nonblock: true, ..wrap(&["true"]) });
    assert_eq!(world.code(pid), 1);
    assert!(world.now - start < 2.0);
    assert!(world.processes[pid].printed.is_empty());
}

#[test]
fn nonblock_custom_conflict_exit_code() {
    let mut world = World::new();
    world.hold(wrap(&["sleep", "30"]));
    let opts = Opts { nonblock: true, conflict_exit_code: 7, ..wrap(&["true"]) };
    let pid = world.complete(opts);
    assert_eq!(world.code(pid), 7);
}

#[test]
fn timeout_expires_when_held() {
    let mut world = World::new();
    world.hold(wrap(&["sleep", "30"]));
    let start = world.now;
    let pid = world.complete(Opts { timeout: within(1.0), ..wrap(&["true"]) });
    let elapsed = world.now - start;
    assert_eq!(world.code(pid), 1);
    assert!(elapsed >= 1.0);
    assert!(elapsed < 3.0);
}

#[test]
fn timeout_that_is_over_is_not_waited_for() {
    for seconds in [0.0, -0.0, -3.5, f64::NEG_INFINITY, f64::NAN, -f64::NAN] {
        let mut world = World::new();
        world.hold(wrap(&["sleep", "30"]));
        let pid = world.complete(Opts { timeout: within(seconds), ..wrap(&["true"]) });
        assert_eq!(world.code(pid), 1);
        assert!(!world.processes[pid].requests.iter().any(|r| r.starts_with("Lock")));
    }
}

#[test]
fn timeout_acquires_when_freed_in_time() {
    let mut world = World::new();
    let holder = world.start(wrap(&["sleep", "1"]), vec![Deed::Sleep(1.0)]);
    while !world.processes[holder].running {
        world.turn(holder);
    }
    let waiter = world.complete(Opts { timeout: within(10.0), ..wrap(&["true"]) });
    assert_eq!(world.code(waiter), 0);
    world.finish(&[holder]);
}

#[test]
fn propagates_child_exit_code() {
    let mut world = World::new();
    let pid = world.start(wrap(&["sh", "-c", "exit 42"]), vec![Deed::End(42)]);
    world.finish(&[pid]);
    assert_eq!(world.code(pid), 42);
}

#[test]
fn propagates_child_signal() {
    let mut world = World::new();
    let pid = world.start(wrap(&["sh", "-c", "kill -TERM $$"]), vec![Deed::Die(15)]);
    world.finish(&[pid]);
    assert_eq!(world.code(pid), 143);
}

#[test]
fn shared_locks_coexist_but_block_exclusive() {
    let mut world = World::new();
    world.hold(Opts { shared: true, ..wrap(&["sleep", "30"]) });
    let shared = world.complete(Opts { shared: true, nonblock: true, ..wrap(&["true"]) });
    assert_eq!(world.code(shared), 0);
    let exclusive = world.complete(Opts { exclusive: true, nonblock: true, ..wrap(&["true"]) });
    assert_eq!(world.code(exclusive), 1);
}

#[test]
fn creates_lockfile_when_absent_and_keeps_it() {
    let mut world = World::new();
    let opts = Opts { target: "newlock".to_string(), ..wrap(&["true"]) };
    assert!(!world.files.contains_key("newlock"));
    let pid = world.complete(opts);
    assert_eq!(world.code(pid), 0);
    assert!(world.files.contains_key("newlock"));
}

#[test]
fn does_not_truncate_existing_lockfile() {
    let mut world = World::new();
    world.files.insert("lock".to_string(), "important preexisting bytes".to_string());
    let pid = world.complete(wrap(&["true"]));
    assert_eq!(world.code(pid), 0);
    assert_eq!(world.files["lock"], "important preexisting bytes");
}

#[test]
fn holder_sidecar_reports_label() {
    let mut world = World::new();
    let label = Some("test-suite".to_string());
    let holder = world.hold(Opts { label, ..wrap(&["sleep", "30"]) });
    let pid = world.complete(Opts { nonblock: true, verbose: true, ..wrap(&["true"]) });
    assert_eq!(
        world.processes[pid].printed,
        [format!("flock: failed to acquire lock (held by pid {holder}, test-suite)")]
    );
    assert!(world.processes[pid].printed[0].contains("test-suite"));
    assert_eq!(world.code(pid), 1);
}

#[test]
fn fd_mode_lock_survives_tool_exit() {
    let mut world = World::new();
    let pid = world.start_on(descriptor("9"), Vec::new(), 1);
    world.finish(&[pid]);
    assert_eq!(world.code(pid), 0);
    let probe = world.complete(Opts { nonblock: true, ..wrap(&["true"]) });
    assert_eq!(world.code(probe), 1);
}

#[test]
fn fd_mode_sigkill_of_holder_releases() {
    let mut world = World::new();
    let pid = world.start_on(descriptor("9"), Vec::new(), 1);
    world.finish(&[pid]);
    assert!(!world.is_free());
    // The shell that has the descriptor open dies.
    world.locks.remove(&1);
    let start = world.now;
    let waiter = world.complete(Opts { timeout: within(5.0), ..wrap(&["true"]) });
    assert_eq!(world.code(waiter), 0);
    assert!(world.now - start < 5.0);
}

#[test]
fn fd_mode_unlock_releases_while_holder_alive() {
    let mut world = World::new();
    let pid = world.start_on(descriptor("9"), Vec::new(), 1);
    world.finish(&[pid]);
    assert!(!world.is_free());
    let opts = Opts { unlock: true, verbose: true, ..descriptor("9") };
    let unlock = world.start_on(opts, Vec::new(), 1);
    world.finish(&[unlock]);
    assert_eq!(world.code(unlock), 0);
    assert_eq!(world.processes[unlock].printed, ["flock: released lock on fd 9"]);
    assert!(world.is_free());
}

#[test]
fn fd_mode_reports() {
    let mut world = World::new();
    let opts = Opts { verbose: true, ..descriptor("9") };
    let pid = world.start_on(opts, Vec::new(), 1);
    world.finish(&[pid]);
    assert_eq!(world.processes[pid].printed, ["flock: acquired lock on fd 9"]);
    let opts = Opts { verbose: true, timeout: within(0.5), conflict_exit_code: 3, ..descriptor("4") };
    let other = world.start_on(opts, Vec::new(), 2);
    world.finish(&[other]);
    assert_eq!(world.code(other), 3);
    assert_eq!(
        world.processes[other].printed,
        ["flock: waiting for lock on fd 4", "flock: failed to acquire lock on fd 4"]
    );
}

#[test]
fn fd_mode_timeout_leaves_no_lock() {
    let mut world = World::new();
    let holder = world.start_on(descriptor("9"), Vec::new(), 1);
    world.finish(&[holder]);
    let start = world.now;
    let opts = Opts { timeout: within(1.0), ..descriptor("4") };
    let waiter = world.start_on(opts, Vec::new(), 2);
    world.finish(&[waiter]);
    let elapsed = world.now - start;
    assert_eq!(world.code(waiter), 1);
    assert!(elapsed >= 1.0);
    assert!(elapsed < 3.0);
    assert!(world.processes[waiter].printed.is_empty());
    assert_eq!(
        world.processes[waiter].requests,
        [
            "TryLock { target: Descriptor(4), shared: false }".to_string(),
            format!(
                "LockWithin {{ target: Descriptor(4), shared: false, timeout: {} }}",
                1.0_f64.to_bits()
            ),
        ]
    );
    assert_eq!(world.locks.keys().collect::<Vec<_>>(), [&1]);
    // The holder lets go: nothing is locked then, and others can have the lock.
    let unlock = world.start_on(Opts { unlock: true, ..descriptor("9") }, Vec::new(), 1);
    world.finish(&[unlock]);
    assert!(world.locks.is_empty());
    assert!(world.is_free());
}

#[test]
fn fd_mode_timeout_acquires_when_freed_in_time() {
    let mut world = World::new();
    let holder = world.start(wrap(&["sleep", "1"]), vec![Deed::Sleep(1.0)]);
    while !world.processes[holder].running {
        world.turn(holder);
    }
    let opts = Opts { timeout: within(10.0), ..descriptor("4") };
    let waiter = world.start_on(opts, Vec::new(), 2);
    world.finish(&[holder, waiter]);
    assert_eq!(world.code(waiter), 0);
    assert_eq!(world.locks.keys().collect::<Vec<_>>(), [&2]);
    assert!(!world.is_free());
}

#[test]
fn sidecar_is_there_while_the_command_runs() {
    let mut world = World::new();
    let label = Some("nightly".to_string());
    let holder = world.hold(Opts { label, shared: true, ..wrap(&["sleep", "30"]) });
    assert_eq!(
        world.files["lock.holder"],
        format!("pid={holder}\nlabel=nightly\nstarted=1700000000\nmode=shared\n")
    );
    world.processes[holder].wakes = 0.0;
    world.finish(&[holder]);
    assert_eq!(world.files.keys().collect::<Vec<_>>(), ["lock"]);
    let requests = &world.processes[holder].requests;
    let removed = requests.iter().position(|r| r.starts_with("RemoveFile")).unwrap();
    let closed = requests.iter().position(|r| r == "Close").unwrap();
    assert!(removed < closed);
}

#[test]
fn sidecar_trouble_does_not_matter() {
    let mut world = World::new();
    world.sidecars_fail = true;
    let pid = world.start(wrap(&["sh"]), vec![Deed::End(42)]);
    world.finish(&[pid]);
    assert_eq!(world.code(pid), 42);
    assert!(world.processes[pid].printed.is_empty());
}

#[test]
fn waiting_is_announced() {
    let mut world = World::new();
    let holder = world.start(wrap(&["sleep", "1"]), vec![Deed::Sleep(1.0)]);
    while !world.processes[holder].running {
        world.turn(holder);
    }
    let waiter = world.complete(Opts { verbose: true, ..wrap(&["true"]) });
    assert_eq!(world.code(waiter), 0);
    assert_eq!(
        world.processes[waiter].printed,
        [
            "flock: waiting for lock on lock (held by pid 0)",
            "flock: acquired lock after 0.000s"
        ]
    );
    world.files.remove("lock.holder");
    world.hold(wrap(&["sleep", "30"]));
    world.files.remove("lock.holder");
    let opts = Opts { verbose: true, timeout: within(0.25), ..wrap(&["true"]) };
    let refused = world.complete(opts);
    assert_eq!(
        world.processes[refused].printed,
        ["flock: waiting for lock on lock", "flock: failed to acquire lock"]
    );
}

#[test]
fn commands_that_do_not_start() {
    for (fault, cause, code) in [
        (SpawnFault::NotFound, "No such file or directory (os error 2)", 127),
        (SpawnFault::PermissionDenied, "Permission denied (os error 13)", 126),
        (SpawnFault::Other, "Exec format error (os error 8)", 126),
    ] {
        let mut world = World::new();
        let pid = world.start(wrap(&["nosuch", "arg"]), Vec::new());
        world.processes[pid].fault = Some((fault, cause));
        world.finish(&[pid]);
        assert_eq!(world.code(pid), code);
        assert_eq!(world.processes[pid].printed, [format!("flock: nosuch: {cause}")]);
        assert!(world.is_free());
    }
}

#[test]
fn read_only_lock_files_will_do() {
    let mut world = World::new();
    world.read_only = true;
    world.files.insert("lock".to_string(), String::new());
    let pid = world.complete(wrap(&["true"]));
    assert_eq!(world.code(pid), 0);
    let opts = Opts { target: "absent".to_string(), ..wrap(&["true"]) };
    let pid = world.complete(opts);
    assert_eq!(world.code(pid), 125);
    assert_eq!(
        world.processes[pid].printed,
        ["flock: opening lock file absent: No such file or directory (os error 2)"]
    );
}

/// Runs until the first request for the lock and answers it; gives back what is
/// printed then and the exit code.
fn answered(opts: Opts, first: Event<String>, second: Option<Event<String>>) -> (String, i32) {
    let (mut run, mut action) = Run::begin(opts, true);
    let mut answers = vec![Some(first), second];
    let mut line = String::new();
    loop {
        let event = match action {
            Action::Exit { code } => return (line, code),
            Action::Print { line: said } => {
                line = said;
                Event::Done
            }
            Action::TryLock { .. } | Action::LockWithin { .. } | Action::Unlock { .. } => {
                answers.remove(0).unwrap()
            }
            _ => Event::Done,
        };
        (run, action) = carry_on(run, event);
    }
}

#[test]
fn lock_failures() {
    let cause = || "Bad file descriptor (os error 9)".to_string();
    assert_eq!(
        answered(wrap(&["true"]), Event::Failed(cause()), None),
        ("flock: acquiring lock: Bad file descriptor (os error 9)".to_string(), 125)
    );
    assert_eq!(
        answered(descriptor("77"), Event::Failed(cause()), None),
        ("flock: acquiring lock on fd 77: Bad file descriptor (os error 9)".to_string(), 125)
    );
    assert_eq!(
        answered(Opts { unlock: true, ..descriptor("77") }, Event::Failed(cause()), None),
        ("flock: unlocking fd 77: Bad file descriptor (os error 9)".to_string(), 125)
    );
    let timed = || Opts { timeout: within(2.0), ..descriptor("-3") };
    assert_eq!(
        answered(timed(), Event::WouldBlock, Some(Event::NotCloned(cause()))),
        (
            "flock: acquiring lock on fd -3: cloning lock fd for timeout wait: \
             Bad file descriptor (os error 9)"
                .to_string(),
            125
        )
    );
    assert_eq!(
        answered(timed(), Event::WouldBlock, Some(Event::NoThread(cause()))),
        (
            "flock: acquiring lock on fd -3: spawning lock wait thread: \
             Bad file descriptor (os error 9)"
                .to_string(),
            125
        )
    );
    assert_eq!(
        answered(timed(), Event::WouldBlock, Some(Event::Failed(cause()))),
        ("flock: acquiring lock on fd -3: Bad file descriptor (os error 9)".to_string(), 125)
    );
    assert_eq!(answered(timed(), Event::WouldBlock, Some(Event::Disconnected)), (String::new(), 1));
    assert_eq!(answered(timed(), Event::WouldBlock, Some(Event::TimedOut)), (String::new(), 1));
}

fn first_words(opts: Opts, descriptors: bool) -> String {
    let (run, action) = Run::begin(opts, descriptors);
    let Action::Print { line } = action else { panic!("nothing printed") };
    let (_, action) = carry_on(run, Event::Done);
    assert_eq!(action, Action::Exit { code: 125 });
    line
}

#[test]
fn misuse() {
    assert_eq!(
        first_words(Opts { unlock: true, ..wrap(&["true"]) }, true),
        "flock: -u/--unlock is only valid in descriptor mode (no command)"
    );
    assert_eq!(
        first_words(descriptor("lock"), true),
        "flock: expected a command after the lock target, or a bare integer file descriptor for \
         descriptor mode; got \"lock\""
    );
    assert_eq!(
        first_words(descriptor("a \"b\"\n"), true),
        "flock: expected a command after the lock target, or a bare integer file descriptor for \
         descriptor mode; got \"a \\\"b\\\"\\n\""
    );
    assert_eq!(
        first_words(descriptor("9"), false),
        "flock: descriptor lock mode is only supported on unix"
    );
}

#[test]
fn a_number_with_a_command_is_a_lock_file() {
    let opts = Opts { target: "9".to_string(), ..wrap(&["true"]) };
    let (_, action) = Run::begin(opts, true);
    assert_eq!(
        action,
        Action::Open {
            path: "9".to_string(),
            mode: OpenMode { read: true, write: true, create: true, truncate: false }
        }
    );
}

#[test]
fn runs_are_short() {
    let mut world = World::new();
    world.hold(wrap(&["sleep", "30"]));
    world.sidecars_fail = true;
    world.read_only = true;
    let opts = Opts { verbose: true, timeout: within(100.0), ..wrap(&["nosuch"]) };
    let pid = world.start(opts, Vec::new());
    world.processes[pid].fault = Some((SpawnFault::NotFound, "gone"));
    for _ in 0..100 {
        world.turn(pid);
    }
    world.kill(0);
    world.finish(&[pid]);
    assert_eq!(world.code(pid), 127);
    assert!(world.processes[pid].requests.len() <= 17);
}

#[test]
fn what_the_sidecar_says_changes_only_the_report() {
    for text in ["", "pid=1\nlabel=someone\n", "no such thing", "pid=\n"] {
        let mut world = World::new();
        world.files.insert("lock.holder".to_string(), text.to_string());
        let pid = world.complete(Opts { verbose: true, nonblock: true, ..wrap(&["true"]) });
        assert_eq!(world.code(pid), 0);
        world.hold(wrap(&["sleep", "30"]));
        world.files.insert("lock.holder".to_string(), text.to_string());
        let pid = world.complete(Opts { verbose: true, nonblock: true, ..wrap(&["true"]) });
        assert_eq!(world.code(pid), 1);
        assert_eq!(world.processes[pid].printed.len(), 1);
    }
}

#[test]
fn the_lock_file_is_only_opened() {
    let mut world = World::new();
    let label = Some("x".to_string());
    world.complete(Opts { label, verbose: true, ..wrap(&["true"]) });
    let touched: Vec<&String> = world.processes[0]
        .requests
        .iter()
        .filter(|request| request.contains("\"lock\""))
        .collect();
    assert_eq!(touched.len(), 1);
    assert!(touched[0].starts_with("Open"));
    assert!(touched[0].contains("truncate: false"));
}

#[test]
fn the_wait_is_the_one_asked_for() {
    for (opts, request) in [
        (wrap(&["true"]), "Lock { target: File, shared: false }".to_string()),
        (
            Opts { shared: true, exclusive: false, ..wrap(&["true"]) },
            "Lock { target: File, shared: true }".to_string(),
        ),
        (
            Opts { exclusive: true, timeout: within(2.5), ..wrap(&["true"]) },
            format!(
                "LockWithin {{ target: File, shared: false, timeout: {} }}",
                2.5_f64.to_bits()
            ),
        ),
        (
            Opts { timeout: within(f64::INFINITY), ..wrap(&["true"]) },
            "Lock { target: File, shared: false }".to_string(),
        ),
        (
            Opts { timeout: within(1e20), ..wrap(&["true"]) },
            "Lock { target: File, shared: false }".to_string(),
        ),
        (
            Opts { timeout: within(1e19), ..wrap(&["true"]) },
            format!(
                "LockWithin {{ target: File, shared: false, timeout: {} }}",
                1e19_f64.to_bits()
            ),
        ),
    ] {
        let mut world = World::new();
        let holder = world.hold(wrap(&["sleep", "1"]));
        world.processes[holder].wakes = world.now + 1.0;
        let pid = world.complete(opts);
        assert_eq!(world.code(pid), 0);
        assert!(world.processes[pid].requests.contains(&request));
    }
}

#[test]
fn exclusive_makes_no_difference() {
    let outcomes: Vec<(Vec<String>, i32)> = [false, true]
        .into_iter()
        .map(|exclusive| {
            let mut world = World::new();
            let pid = world.complete(Opts { exclusive, verbose: true, ..wrap(&["true"]) });
            (std::mem::take(&mut world.processes[pid].requests), world.code(pid))
        })
        .collect();
    assert_eq!(outcomes[0], outcomes[1]);
}

#[test]
fn no_lock_is_left_behind() {
    for turns in 0..12 {
        let mut world = World::new();
        let pid = world.start(wrap(&["sleep", "30"]), vec![Deed::Sleep(30.0)]);
        for _ in 0..turns {
            world.turn(pid);
        }
        world.kill(pid);
        assert!(world.locks.is_empty());
        assert!(world.is_free());
        assert!(world.locks.is_empty());
    }
}

#[test]
fn zero_is_for_success_alone() {
    for (deed, code) in [
        (Deed::End(0), 0),
        (Deed::End(255), 255),
        (Deed::Die(1), 129),
        (Deed::Die(127), 255),
    ] {
        let mut world = World::new();
        let pid = world.start(wrap(&["sh"]), vec![deed]);
        world.finish(&[pid]);
        assert_eq!(world.code(pid), code);
    }
}

#[test]
fn only_answers_carry_a_run_on() {
    let opts = Opts { nonblock: true, ..wrap(&["true"]) };
    let (run, action) = Run::begin(opts, true);
    assert_eq!(query(&action), Query::Fallible);
    let Err((run, event)) = run.resume(Event::WouldBlock) else { panic!("no answer to that") };
    assert_eq!(event, Event::WouldBlock);
    let Ok((run, action)) = run.resume(Event::Done) else { panic!("an answer") };
    assert_eq!(action, Action::StartTimer);
    let Ok((run, action)) = run.resume(Event::Done) else { panic!("an answer") };
    assert_eq!(action, Action::TryLock { target: Target::File, shared: false });
    let Ok((run, action)) = run.resume(Event::WouldBlock) else { panic!("an answer") };
    assert_eq!(action, Action::Exit { code: 1 });
    assert!(run.resume(Event::Done).is_err());
}

#[test]
fn signals_begin_at_one() {
    for number in [0, -1, -128, i32::MIN, i32::MAX, i32::MAX - 127] {
        let event = Event::Ended { code: None, signal: Some(number) };
        assert!(!is_answer(Query::Command, &event), "{number}");
    }
    for number in [1, 9, 15, 64, 127, i32::MAX - 128] {
        let event = Event::Ended { code: None, signal: Some(number) };
        assert!(is_answer(Query::Command, &event), "{number}");
    }
    let event = Event::Ended { code: Some(3), signal: Some(0) };
    assert!(is_answer(Query::Command, &event));
}

/// Runs a command to its end with what comes of each request about the sidecar
/// given; gives back the exit code.
fn code_with_sidecar(answers: [bool; 3], ended: i32) -> i32 {
    let (mut run, mut action) = Run::begin(wrap(&["sh"]), true);
    let mut answers = answers.into_iter();
    loop {
        let event = match &action {
            Action::Exit { code } => return *code,
            Action::Identify => Event::Identity { pid: 5, since_epoch: None },
            Action::Spawn { .. } => Event::Ended { code: Some(ended), signal: None },
            Action::WriteFile { .. } | Action::Rename { .. } | Action::RemoveFile { .. } => {
                if answers.next().unwrap() {
                    Event::Done
                } else {
                    Event::Failed("no".to_string())
                }
            }
            _ => Event::Done,
        };
        (run, action) = carry_on(run, event);
    }
}

#[test]
fn sidecars_do_not_decide() {
    for bits in 0..8 {
        let answers = [bits & 1 != 0, bits & 2 != 0, bits & 4 != 0];
        for ended in [0, 3] {
            assert_eq!(code_with_sidecar(answers, ended), ended, "{answers:?}");
        }
    }
}
