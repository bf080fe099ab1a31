# flock

Run a command while holding a file lock that the operating system manages, or
lock a descriptor that is already open:

```
flock [OPTIONS] <lockfile> <command> [args...]
flock [OPTIONS] <fd>
```

## Layout

- `src/` is the library. It decides what a run does, step by step, and is verified
  with Verus. A run asks for one thing at a time (open this file, take that lock,
  run the command) and is told what came of it. `src/laws.rs` states what holds of
  every run: the command runs only under the lock, the lock file is never
  truncated, moved or removed, every run ends, and with which exit code.
  `src/exclusion.rs` states what holds of many runs on one lock file, under the
  kernel's rules for `flock(2)`: runs that hold an exclusive lock, and are not
  killed, never run their commands at the same time; and one that runs a command
  and exits or is killed leaves no lock behind. The command of a run that was
  killed may live on without the lock. A lock that was taken on a descriptor stays
  with the caller; one that could not be had in time is not left behind there either.
- `app/` is the program: it reads the command line and does what the library asks
  for.
- `tests/` runs the library against a small world of files, locks and time.

Paths are taken apart by the rules of POSIX, which `src/paths.rs` states. On a
platform with other rules the standard library is asked, and what is said of the
names of sidecars holds only as far as its answers go.

A timeout that is not a positive number leaves no time to wait, and one of 2 to the
64th power seconds or more sets no limit.

## Exit codes

- The command's own code, or 128 plus the number of the signal that ended it.
- The conflict exit code (1 unless `-E` says otherwise) where `-n` or `-w` did not
  get the lock.
- 127 where the command cannot be found, 126 where it cannot be executed, and 125
  where `flock` itself fails.
