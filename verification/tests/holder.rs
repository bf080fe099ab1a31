use std::path::Path;

use flock::action::Action;
use flock::holder::{
    contents, read, sidecar_name, sidecar_path, temp_name, temp_path, WriteStep, Writing,
};
use flock::paths::{
    file_name, platform_file_name, platform_with_file_name, with_file_name, PathRules,
};

const PATHS: &[&str] = &[
    "", "lock", "dir/lock", "/lock", "//lock", "/", "//", ".", "..", "./", "../", "./lock",
    "././lock", ".//lock", "../lock", "a/..", "a/../", "a/../lock", "a/./b", "a//b", "a/b/",
    "a/b//", "a/b/.", "a/b/./", "a/b/./.", "/.", "/./", "/..", "/./a", ".lock", "..lock", "...",
    "lock.", "lock..", "a/.", "a/.b", "a/b.", "./.", "./..", "/tmp/build.lock", "/a//./b/./",
    "caf\u{e9}/\u{9501}", "9", "with space/lo ck", "a\\b", "/tmp/dir.d/.hidden",
];

fn here() -> PathRules {
    PathRules::of_this_platform()
}

#[test]
fn path_rules_are_the_platforms() {
    assert_eq!(here().posix(), std::path::MAIN_SEPARATOR == '/');
}

#[test]
fn sidecar_lies_beside_the_lock_file() {
    assert_eq!(sidecar_path("lock", here()), "lock.holder");
    assert_eq!(sidecar_path("/tmp/build.lock", here()), "/tmp/build.lock.holder");
    assert_eq!(sidecar_path("a/b/", here()), "a/b.holder");
    assert_eq!(sidecar_path("a/./b", here()), "a/b.holder");
    assert_eq!(sidecar_path("", here()), ".holder");
    assert_eq!(sidecar_path("/", here()), "/.holder");
    assert_eq!(sidecar_path("..", here()), "../.holder");
    assert_eq!(sidecar_path("a/..", here()), "a/../.holder");
}

#[test]
fn names_beside_the_lock_file() {
    assert_eq!(sidecar_name(Some("lock")), "lock.holder");
    assert_eq!(sidecar_name(Some("c:lock")), "c:lock.holder");
    assert_eq!(sidecar_name(None), ".holder");
    assert_eq!(temp_name(Some("lock"), 4711), "lock.holder.tmp.4711");
    assert_eq!(temp_name(None, 0), ".holder.tmp.0");
}

#[test]
fn temp_file_carries_the_process_id() {
    assert_eq!(temp_path("/tmp/build.lock", 4711, here()), "/tmp/build.lock.holder.tmp.4711");
    assert_eq!(temp_path("lock", 0, here()), "lock.holder.tmp.0");
    assert_eq!(temp_path("lock", u32::MAX, here()), "lock.holder.tmp.4294967295");
    assert_ne!(temp_path("lock", 1, here()), temp_path("lock", 11, here()));
}

#[test]
fn paths_are_taken_apart_as_the_platform_does() {
    for path in PATHS {
        let platform = Path::new(path);
        let name = platform.file_name().map(|n| n.to_str().unwrap().to_string());
        assert_eq!(file_name(path, here()), name, "file name of {path:?}");
        assert_eq!(platform_file_name(path, here()), name, "file name of {path:?}");
        for changed in ["x", "x.holder", ".holder", "", "..", "a/b", "/abs"] {
            assert_eq!(
                with_file_name(path, changed, here()),
                platform.with_file_name(changed).to_str().unwrap(),
                "{path:?} with file name {changed:?}"
            );
            assert_eq!(
                platform_with_file_name(path, changed, here()),
                platform.with_file_name(changed).to_str().unwrap(),
                "{path:?} with file name {changed:?}"
            );
        }
    }
}

#[test]
fn the_platform_takes_paths_apart() {
    assert_eq!(platform_file_name("a/b", here()), Some("b".to_string()));
    assert_eq!(platform_file_name("a/..", here()), None);
    let changed = platform_with_file_name("a/b", "c", here());
    assert_eq!(changed, format!("a{}c", std::path::MAIN_SEPARATOR));
}

#[test]
fn sidecars_are_not_shared() {
    for one in PATHS {
        for two in PATHS {
            if sidecar_path(one, here()) == sidecar_path(two, here()) {
                assert_eq!(file_name(one, here()), file_name(two, here()));
                if file_name(one, here()).is_some() {
                    assert_eq!(Path::new(one).parent(), Path::new(two).parent());
                }
            }
        }
    }
}

#[test]
fn sidecar_is_never_the_lock_file() {
    for path in PATHS {
        let sidecar = sidecar_path(path, here());
        let temp = temp_path(path, 77, here());
        assert_ne!(&sidecar, path);
        assert_ne!(&temp, path);
        assert_ne!(sidecar, temp);
        assert_ne!(file_name(&sidecar, here()), file_name(path, here()));
        let own = file_name(path, here()).unwrap_or_default();
        assert_eq!(file_name(&sidecar, here()), Some(format!("{own}.holder")));
        if file_name(path, here()).is_some() {
            assert_eq!(with_file_name(&sidecar, &own, here()), with_file_name(path, &own, here()));
        }
    }
}

#[test]
fn sidecar_text() {
    assert_eq!(
        contents(42, Some("test-suite"), Some(1_700_000_000), false),
        "pid=42\nlabel=test-suite\nstarted=1700000000\nmode=exclusive\n"
    );
    assert_eq!(contents(1, None, None, true), "pid=1\nlabel=\nstarted=0\nmode=shared\n");
}

/// What `read` amounts to, over std's own lines.
fn summary_by_lines(contents: &str) -> Option<String> {
    let mut pid = "";
    let mut label = "";
    for line in contents.lines() {
        if let Some(v) = line.strip_prefix("pid=") {
            pid = v;
        } else if let Some(v) = line.strip_prefix("label=") {
            label = v;
        }
    }
    if pid.is_empty() {
        None
    } else if label.is_empty() {
        Some(format!("pid {pid}"))
    } else {
        Some(format!("pid {pid}, {label}"))
    }
}

#[test]
fn sidecars_are_summed_up() {
    assert_eq!(read(None), None);
    assert_eq!(read(Some("")), None);
    assert_eq!(read(Some("pid=42\nlabel=\n")), Some("pid 42".to_string()));
    assert_eq!(read(Some("pid=42\nlabel=x")), Some("pid 42, x".to_string()));
    assert_eq!(read(Some("pid=1\npid=2")), Some("pid 2".to_string()));
    assert_eq!(read(Some("label=x\n")), None);
    assert_eq!(read(Some("pid=1\r\nlabel=a\rb\r\n")), Some("pid 1, a\rb".to_string()));
    for text in [
        "", "\n", "\r\n", "pid=", "pid=7", "pid=7\r", "pid=7\r\n", "pid=7\n\n", "\npid=7", "pid=7\npid=",
        " pid=7", "pid=7\nlabel=a\nlabel=", "label=a\r\npid=7\r\r\n", "pid=pid=7", "pi", "label",
        "pid=\u{9501}\nlabel=caf\u{e9}\n", "x\npid=3\ny\nlabel=l, m\nz",
    ] {
        assert_eq!(read(Some(text)), summary_by_lines(text), "{text:?}");
    }
}

#[test]
fn what_is_written_is_read_back() {
    for label in ["test-suite", "a b, c", "pid=9", "label=x", "\u{9501}", "a\rb"] {
        let text = contents(42, Some(label), Some(5), true);
        assert_eq!(read(Some(&text)), Some(format!("pid 42, {label}")));
    }
    assert_eq!(read(Some(&contents(42, Some(""), None, false))), Some("pid 42".to_string()));
    assert_eq!(read(Some(&contents(42, None, None, false))), Some("pid 42".to_string()));
}

#[test]
fn labels_that_break_the_line_are_not_read_back() {
    let text = contents(42, Some("a\npid="), Some(5), false);
    assert_eq!(read(Some(&text)), None);
    let text = contents(42, Some("a\r"), Some(5), false);
    assert_eq!(read(Some(&text)), Some("pid 42, a".to_string()));
}

fn asked(last: Option<(Writing, bool)>) -> (Writing, Action<String, Vec<String>>) {
    match flock::holder::write("d/lock", here(), Some("me"), false, 8, Some(3), last) {
        WriteStep::Ask { stage, action } => (stage, action),
        WriteStep::Finished { .. } => panic!("finished"),
    }
}

fn finished(last: Option<(Writing, bool)>) -> Option<Action<String, Vec<String>>> {
    match flock::holder::write("d/lock", here(), Some("me"), false, 8, Some(3), last) {
        WriteStep::Ask { .. } => panic!("not finished"),
        WriteStep::Finished { guard } => guard.map(|g| g.removal()),
    }
}

#[test]
fn sidecar_is_prepared_and_moved_into_place() {
    let temp = "d/lock.holder.tmp.8".to_string();
    let path = "d/lock.holder".to_string();
    assert_eq!(
        asked(None),
        (
            Writing::Preparing,
            Action::WriteFile {
                path: temp.clone(),
                contents: "pid=8\nlabel=me\nstarted=3\nmode=exclusive\n".to_string()
            }
        )
    );
    assert_eq!(
        asked(Some((Writing::Preparing, true))),
        (Writing::Moving, Action::Rename { from: temp.clone(), to: path.clone() })
    );
    assert_eq!(finished(Some((Writing::Moving, true))), Some(Action::RemoveFile { path }));
    for stage in [Writing::Preparing, Writing::Moving] {
        assert_eq!(
            asked(Some((stage, false))),
            (Writing::Discarding, Action::RemoveFile { path: temp.clone() })
        );
    }
    assert_eq!(finished(Some((Writing::Discarding, true))), None);
    assert_eq!(finished(Some((Writing::Discarding, false))), None);
}
