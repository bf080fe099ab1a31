//! The sidecar of a lock file.
//!
//! While the lock is held, a file beside the lock file says who holds it, so that
//! a waiter can report it. That is all it is for: nothing about the lock depends
//! on it.

use vstd::prelude::*;

use crate::action::Action;
#[allow(unused_imports)]
use crate::action::ActionView;
#[allow(unused_imports)]
use crate::descriptor::decimal_denotes_its_number;
#[allow(unused_imports)]
use crate::paths::{
    body_start, directory_of, file_name_is_plain, file_name_of, file_name_on, is_plain, sibling,
    sibling_has_the_name, sibling_in_the_same_directory, sibling_on, sibling_with_longer_name, trim,
};
use crate::paths::{file_name, with_file_name, PathRules};
#[allow(unused_imports)]
use crate::text::decimal;
use crate::text::{chars_of, decimal_text};

verus! {

/// The file name of a sidecar: the lock file's own, if it has one, with `.holder`
/// added.
pub open spec fn sidecar_name_of(name: Option<Seq<char>>) -> Seq<char> {
    name.unwrap_or(Seq::empty()) + ".holder"@
}

/// The file name under which process `pid` prepares a sidecar.
pub open spec fn temp_name_of(name: Option<Seq<char>>, pid: nat) -> Seq<char> {
    name.unwrap_or(Seq::empty()) + ".holder.tmp."@ + decimal(pid)
}

/// Where the holder of the lock on `lockfile` leaves word: beside the lock file.
pub open spec fn sidecar_path_of(lockfile: Seq<char>, rules: PathRules) -> Seq<char> {
    sibling_on(lockfile, sidecar_name_of(file_name_on(lockfile, rules)), rules)
}

/// Where process `pid` prepares the sidecar.
pub open spec fn temp_path_of(lockfile: Seq<char>, pid: nat, rules: PathRules) -> Seq<char> {
    sibling_on(lockfile, temp_name_of(file_name_on(lockfile, rules), pid), rules)
}

/// What a sidecar says: one `key=value` line each for the process id, the
/// label, the time the lock was taken and the kind of lock.
pub open spec fn contents_of(
    pid: nat,
    label: Option<Seq<char>>,
    since_epoch: Option<u64>,
    shared: bool,
) -> Seq<char> {
    "pid="@ + decimal(pid) + "\nlabel="@ + label.unwrap_or(Seq::empty()) + "\nstarted="@ + decimal(
        since_epoch.unwrap_or(0) as nat,
    ) + "\nmode="@ + (if shared {
        "shared"@
    } else {
        "exclusive"@
    }) + "\n"@
}

/// How far the first line of a text reaches: up to its line feed, or to the end.
pub open spec fn line_len(text: Seq<char>) -> nat
    decreases text.len(),
{
    if text.len() == 0 || text[0] == '\n' {
        0
    } else {
        1 + line_len(text.skip(1))
    }
}

/// A line without the carriage return that precedes its line feed.
pub open spec fn without_return(line: Seq<char>) -> Seq<char> {
    if line.len() > 0 && line.last() == '\r' {
        line.drop_last()
    } else {
        line
    }
}

/// The lines of a text, without their endings. A line ends in a line feed, with
/// or without a carriage return before it; the last one may lack that ending.
pub open spec fn lines_of(text: Seq<char>) -> Seq<Seq<char>>
    decreases text.len(),
{
    let len = line_len(text);
    if text.len() == 0 {
        Seq::empty()
    } else if len >= text.len() {
        seq![text]
    } else {
        seq![without_return(text.take(len as int))] + lines_of(text.skip((len + 1) as int))
    }
}

/// What follows `key` in the last line that begins with it; empty where no line
/// does.
pub open spec fn field_of(lines: Seq<Seq<char>>, key: Seq<char>) -> Seq<char>
    decreases lines.len(),
{
    if lines.len() == 0 {
        Seq::empty()
    } else if key.is_prefix_of(lines.last()) {
        lines.last().skip(key.len() as int)
    } else {
        field_of(lines.drop_last(), key)
    }
}

/// The one-line account of the holder that a sidecar's text amounts to; none
/// where it names no process.
pub open spec fn summary_of(contents: Seq<char>) -> Option<Seq<char>> {
    let pid = field_of(lines_of(contents), "pid="@);
    let label = field_of(lines_of(contents), "label="@);
    if pid.len() == 0 {
        None
    } else if label.len() == 0 {
        Some("pid "@ + pid)
    } else {
        Some("pid "@ + pid + ", "@ + label)
    }
}

/// A file name, empty where there is none.
fn name_text(name: Option<&str>) -> (text: String)
    ensures
        text@ == name.deep_view().unwrap_or(Seq::empty()),
{
    match name {
        Some(given) => given.to_owned(),
        None => String::new(),
    }
}

/// The file name of the sidecar of a lock file with this file name.
pub fn sidecar_name(name: Option<&str>) -> (text: String)
    ensures
        text@ == sidecar_name_of(name.deep_view()),
{
    let mut text = name_text(name);
    text.append(".holder");
    text
}

/// The file name under which process `pid` prepares the sidecar of a lock file
/// with this file name.
pub fn temp_name(name: Option<&str>, pid: u32) -> (text: String)
    ensures
        text@ == temp_name_of(name.deep_view(), pid as nat),
{
    let mut text = name_text(name);
    text.append(".holder.tmp.");
    let digits = decimal_text(pid as u64);
    text.append(digits.as_str());
    text
}

/// The path of the sidecar of `lockfile`.
pub fn sidecar_path(lockfile: &str, rules: PathRules) -> (path: String)
    ensures
        path@ == sidecar_path_of(lockfile@, rules),
{
    let name = match &file_name(lockfile, rules) {
        Some(own) => sidecar_name(Some(own.as_str())),
        None => sidecar_name(None),
    };
    with_file_name(lockfile, name.as_str(), rules)
}

/// The path under which process `pid` prepares the sidecar of `lockfile`.
pub fn temp_path(lockfile: &str, pid: u32, rules: PathRules) -> (path: String)
    ensures
        path@ == temp_path_of(lockfile@, pid as nat, rules),
{
    let name = match &file_name(lockfile, rules) {
        Some(own) => temp_name(Some(own.as_str()), pid),
        None => temp_name(None, pid),
    };
    with_file_name(lockfile, name.as_str(), rules)
}

/// The text of a sidecar.
pub fn contents(pid: u32, label: Option<&str>, since_epoch: Option<u64>, shared: bool) -> (text:
    String)
    ensures
        text@ == contents_of(pid as nat, label.deep_view(), since_epoch, shared),
{
    let mut text = "pid=".to_owned();
    let pid_digits = decimal_text(pid as u64);
    text.append(pid_digits.as_str());
    text.append("\nlabel=");
    let label_text: &str = match label {
        Some(given) => given,
        None => "",
    };
    proof {
        reveal_strlit("");
        assert(""@ =~= Seq::<char>::empty());
    }
    text.append(label_text);
    text.append("\nstarted=");
    let started: u64 = match since_epoch {
        Some(secs) => secs,
        None => 0,
    };
    let started_digits = decimal_text(started);
    text.append(started_digits.as_str());
    text.append("\nmode=");
    if shared {
        text.append("shared");
    } else {
        text.append("exclusive");
    }
    text.append("\n");
    text
}

/// The end of the line that begins at `from`.
fn line_end(text: &Vec<char>, from: usize) -> (end: usize)
    requires
        from <= text@.len(),
    ensures
        from <= end <= text@.len(),
        end - from == line_len(text@.skip(from as int)),
{
    let mut end: usize = from;
    while end < text.len() && text[end] != '\n'
        invariant
            from <= end <= text@.len(),
            line_len(text@.skip(from as int)) == (end - from) + line_len(text@.skip(end as int)),
        decreases text.len() - end,
    {
        proof {
            assert(text@.skip(end as int).skip(1) =~= text@.skip(end + 1));
        }
        end = end + 1;
    }
    end
}

/// Whether the part of a text between two positions begins with `key`.
fn begins_with(text: &Vec<char>, from: usize, to: usize, key: &Vec<char>) -> (yes: bool)
    requires
        from <= to <= text@.len(),
    ensures
        yes == key@.is_prefix_of(text@.subrange(from as int, to as int)),
{
    let ghost part = text@.subrange(from as int, to as int);
    if key.len() > to - from {
        return false;
    }
    let mut i: usize = 0;
    while i < key.len()
        invariant
            from <= to <= text@.len(),
            key@.len() <= to - from,
            part == text@.subrange(from as int, to as int),
            i <= key@.len(),
            forall|k: int| 0 <= k < i ==> key@[k] == part[k],
        decreases key.len() - i,
    {
        if key[i] != text[from + i] {
            proof {
                assert(part.subrange(0, key@.len() as int)[i as int] == part[i as int]);
            }
            return false;
        }
        i = i + 1;
    }
    proof {
        assert(key@ =~= part.subrange(0, key@.len() as int));
    }
    true
}

/// Where the value of a field lies in a text.
fn locate_field(text: &Vec<char>, key: &Vec<char>) -> (place: (usize, usize))
    ensures
        place.0 <= place.1 <= text@.len(),
        text@.subrange(place.0 as int, place.1 as int) == field_of(lines_of(text@), key@),
{
    let mut place: (usize, usize) = (0, 0);
    let mut at: usize = 0;
    let ghost mut seen: Seq<Seq<char>> = Seq::empty();
    proof {
        assert(text@.skip(0) =~= text@);
        assert(seen + lines_of(text@) =~= lines_of(text@));
        assert(text@.subrange(0, 0) =~= field_of(seen, key@));
    }
    while at < text.len()
        invariant
            at <= text@.len(),
            place.0 <= place.1 <= text@.len(),
            lines_of(text@) == seen + lines_of(text@.skip(at as int)),
            text@.subrange(place.0 as int, place.1 as int) == field_of(seen, key@),
        decreases text.len() - at,
    {
        let end = line_end(text, at);
        let ghost rest = text@.skip(at as int);
        let last: usize = if end < text.len() && end > at && text[end - 1] == '\r' {
            end - 1
        } else {
            end
        };
        let ghost line = text@.subrange(at as int, last as int);
        if begins_with(text, at, last, key) {
            place = (at + key.len(), last);
            proof {
                assert(text@.subrange(place.0 as int, place.1 as int) =~= line.skip(
                    key@.len() as int,
                ));
            }
        }
        proof {
            assert(rest.take(end - at) =~= text@.subrange(at as int, end as int));
            if end < text.len() {
                assert(without_return(rest.take(end - at)) =~= line);
                assert(rest.skip(end - at + 1) =~= text@.skip(end + 1));
                assert(lines_of(text@) =~= seen.push(line) + lines_of(text@.skip(end + 1)));
            } else {
                assert(rest =~= line);
                assert(text@.skip(text@.len() as int) =~= Seq::<char>::empty());
                assert(lines_of(text@) =~= seen.push(line) + lines_of(
                    text@.skip(text@.len() as int),
                ));
            }
            assert(seen.push(line).drop_last() =~= seen);
            seen = seen.push(line);
        }
        at = if end < text.len() {
            end + 1
        } else {
            end
        };
    }
    proof {
        assert(text@.skip(at as int) =~= Seq::<char>::empty());
        assert(seen + lines_of(Seq::<char>::empty()) =~= seen);
    }
    place
}

/// Sums up what a sidecar says of the holder, given what reading it brought:
/// its text, or nothing where it could not be read.
pub fn read(contents: Option<&str>) -> (summary: Option<String>)
    ensures
        summary.deep_view() == (match contents {
            Some(text) => summary_of(text@),
            None => None,
        }),
{
    match contents {
        Some(text) => {
            let chars = chars_of(text);
            let pid = locate_field(&chars, &chars_of("pid="));
            let label = locate_field(&chars, &chars_of("label="));
            if pid.0 == pid.1 {
                return None;
            }
            let mut summary = "pid ".to_owned();
            summary.append(text.substring_char(pid.0, pid.1));
            if label.0 != label.1 {
                summary.append(", ");
                summary.append(text.substring_char(label.0, label.1));
            }
            Some(summary)
        },
        None => None,
    }
}

/// A sidecar that is in place and has to be removed when the lock is given up.
pub struct Guard {
    path: String,
}

impl View for Guard {
    type V = Seq<char>;

    closed spec fn view(&self) -> Seq<char> {
        self.path@
    }
}

impl DeepView for Guard {
    type V = Seq<char>;

    open spec fn deep_view(&self) -> Seq<char> {
        self@
    }
}

impl Guard {
    /// The request that removes the sidecar, which ends the guard's duty.
    pub fn removal(self) -> (action: Action<String, Vec<String>>)
        ensures
            action.deep_view() == (ActionView::RemoveFile { path: self@ }),
    {
        Action::RemoveFile { path: self.path }
    }
}

/// How far the writing of a sidecar has come.
#[derive(Clone, Copy, Debug, PartialEq, Eq, Structural)]
pub enum Writing {
    /// The text is being written under a temporary name.
    Preparing,
    /// The temporary file is being moved into place.
    Moving,
    /// The temporary file is being removed, as the sidecar cannot be had.
    Discarding,
}

/// What is to be done next about a sidecar. `G` is the guard's type.
pub enum WriteStep<G, S, L> {
    Ask { stage: Writing, action: Action<S, L> },
    Finished { guard: Option<G> },
}

impl<G: DeepView, S: DeepView, L: DeepView> DeepView for WriteStep<G, S, L> {
    type V = WriteStep<G::V, S::V, L::V>;

    open spec fn deep_view(&self) -> WriteStep<G::V, S::V, L::V> {
        match *self {
            WriteStep::Ask { stage, action } => WriteStep::Ask {
                stage,
                action: action.deep_view(),
            },
            WriteStep::Finished { guard } => WriteStep::Finished { guard: guard.deep_view() },
        }
    }
}

/// A writing step as contracts see it.
pub type WriteStepView = WriteStep<Seq<char>, Seq<char>, Seq<Seq<char>>>;

/// The course of writing a sidecar: prepare it under a name of this process's
/// own, then move it into place, so that nobody reads half of it. Where either
/// fails, what was prepared is removed, and there is no sidecar to guard.
pub open spec fn write_step(
    lockfile: Seq<char>,
    rules: PathRules,
    label: Option<Seq<char>>,
    shared: bool,
    pid: nat,
    since_epoch: Option<u64>,
    last: Option<(Writing, bool)>,
) -> WriteStepView {
    let path = sidecar_path_of(lockfile, rules);
    let temp = temp_path_of(lockfile, pid, rules);
    match last {
        None => WriteStep::Ask {
            stage: Writing::Preparing,
            action: Action::WriteFile {
                path: temp,
                contents: contents_of(pid, label, since_epoch, shared),
            },
        },
        Some((Writing::Preparing, true)) => WriteStep::Ask {
            stage: Writing::Moving,
            action: Action::Rename { from: temp, to: path },
        },
        Some((Writing::Moving, true)) => WriteStep::Finished { guard: Some(path) },
        Some((Writing::Preparing, false)) | Some((Writing::Moving, false)) => WriteStep::Ask {
            stage: Writing::Discarding,
            action: Action::RemoveFile { path: temp },
        },
        Some((Writing::Discarding, _)) => WriteStep::Finished { guard: None },
    }
}

/// Takes the writing of a sidecar one step further. `last` is the stage that
/// was just tried and whether it succeeded, none at the start.
pub fn write(
    lockfile: &str,
    rules: PathRules,
    label: Option<&str>,
    shared: bool,
    pid: u32,
    since_epoch: Option<u64>,
    last: Option<(Writing, bool)>,
) -> (step: WriteStep<Guard, String, Vec<String>>)
    ensures
        step.deep_view() == write_step(
            lockfile@,
            rules,
            label.deep_view(),
            shared,
            pid as nat,
            since_epoch,
            last,
        ),
{
    match last {
        None => WriteStep::Ask {
            stage: Writing::Preparing,
            action: Action::WriteFile {
                path: temp_path(lockfile, pid, rules),
                contents: contents(pid, label, since_epoch, shared),
            },
        },
        Some((stage, done)) => match stage {
            Writing::Preparing if done => WriteStep::Ask {
                stage: Writing::Moving,
                action: Action::Rename {
                    from: temp_path(lockfile, pid, rules),
                    to: sidecar_path(lockfile, rules),
                },
            },
            Writing::Moving if done => WriteStep::Finished {
                guard: Some(Guard { path: sidecar_path(lockfile, rules) }),
            },
            Writing::Discarding => WriteStep::Finished { guard: None },
            _ => WriteStep::Ask {
                stage: Writing::Discarding,
                action: Action::RemoveFile { path: temp_path(lockfile, pid, rules) },
            },
        },
    }
}

/// A label that takes up one line of a sidecar and no more.
pub open spec fn fits_one_line(label: Seq<char>) -> bool {
    &&& !label.contains('\n')
    &&& label.len() > 0 ==> label.last() != '\r'
}

proof fn lemma_line_len(line: Seq<char>, rest: Seq<char>)
    requires
        !line.contains('\n'),
    ensures
        line_len(line + seq!['\n'] + rest) == line.len(),
    decreases line.len(),
{
    let whole = line + seq!['\n'] + rest;
    if line.len() > 0 {
        assert(line.contains(line[0]));
        assert(whole.skip(1) =~= line.skip(1) + seq!['\n'] + rest);
        assert forall|i: int| 0 <= i < line.skip(1).len() implies line.skip(1)[i] != '\n' by {
            assert(line.contains(line[i + 1]));
        }
        lemma_line_len(line.skip(1), rest);
    } else {
        assert(whole[0] == '\n');
    }
}

/// The first line of a text comes first among its lines.
proof fn lemma_first_line(line: Seq<char>, rest: Seq<char>)
    requires
        fits_one_line(line),
    ensures
        lines_of(line + seq!['\n'] + rest) == seq![line] + lines_of(rest),
{
    let whole = line + seq!['\n'] + rest;
    lemma_line_len(line, rest);
    assert(whole.take(line.len() as int) =~= line);
    assert(whole.skip((line.len() + 1) as int) =~= rest);
}

proof fn lemma_field_line(key: Seq<char>, value: Seq<char>)
    requires
        fits_one_line(value),
        forall|i: int| 0 <= i < key.len() ==> key[i] != '\n' && key[i] != '\r',
    ensures
        fits_one_line(key + value),
        key.is_prefix_of(key + value),
        (key + value).skip(key.len() as int) == value,
{
    let line = key + value;
    assert forall|i: int| 0 <= i < line.len() implies line[i] != '\n' by {
        if i >= key.len() {
            assert(value.contains(value[i - key.len()]));
        }
    }
    assert(line.skip(key.len() as int) =~= value);
    assert(key =~= line.subrange(0, key.len() as int));
}

proof fn lemma_regroup(
    before: Seq<char>,
    feed: Seq<char>,
    key: Seq<char>,
    value: Seq<char>,
    after: Seq<char>,
)
    ensures
        before + (feed + key) + value + feed + after == before + feed + ((key + value) + feed
            + after),
{
    assert(before + (feed + key) + value + feed + after =~= before + feed + ((key + value) + feed
        + after));
}

/// A sidecar's text, line by line.
proof fn lemma_contents_by_line(pid: Seq<char>, label: Seq<char>, started: Seq<char>, mode: Seq<char>)
    ensures
        ({
            let feed = seq!['\n'];
            "pid="@ + pid + "\nlabel="@ + label + "\nstarted="@ + started + "\nmode="@ + mode
                + "\n"@ == ("pid="@ + pid) + feed + (("label="@ + label) + feed + (("started="@
                + started) + feed + (("mode="@ + mode) + feed + Seq::empty())))
        }),
{
    let feed = seq!['\n'];
    assert("\nlabel="@ == feed + "label="@) by {
        reveal_strlit("label=");
        reveal_strlit("\nlabel=");
    }
    assert("\nstarted="@ == feed + "started="@) by {
        reveal_strlit("started=");
        reveal_strlit("\nstarted=");
    }
    assert("\nmode="@ == feed + "mode="@) by {
        reveal_strlit("mode=");
        reveal_strlit("\nmode=");
    }
    assert("\n"@ == feed) by {
        reveal_strlit("\n");
    }
    let first = "pid="@ + pid;
    let upto_label = first + (feed + "label="@) + label;
    let upto_started = upto_label + (feed + "started="@) + started;
    let upto_mode = upto_started + (feed + "mode="@) + mode + feed;
    let from_mode = ("mode="@ + mode) + feed + Seq::empty();
    let from_started = ("started="@ + started) + feed + from_mode;
    assert(upto_mode == upto_mode + Seq::empty());
    lemma_regroup(upto_started, feed, "mode="@, mode, Seq::empty());
    lemma_regroup(upto_label, feed, "started="@, started, from_mode);
    lemma_regroup(first, feed, "label="@, label, from_started);
}

/// A number, or a word without line breaks, makes one line with its key.
proof fn lemma_sidecar_fields_fit(pid: nat, label: Seq<char>, started: nat)
    requires
        fits_one_line(label),
    ensures
        fits_one_line("pid="@ + decimal(pid)),
        fits_one_line("label="@ + label),
        fits_one_line("started="@ + decimal(started)),
        fits_one_line("mode="@ + "shared"@),
        fits_one_line("mode="@ + "exclusive"@),
{
    assert(fits_one_line("pid="@ + decimal(pid))) by {
        reveal_strlit("pid=");
        decimal_denotes_its_number(pid);
        lemma_field_line("pid="@, decimal(pid));
    }
    assert(fits_one_line("label="@ + label)) by {
        reveal_strlit("label=");
        lemma_field_line("label="@, label);
    }
    assert(fits_one_line("started="@ + decimal(started))) by {
        reveal_strlit("started=");
        decimal_denotes_its_number(started);
        lemma_field_line("started="@, decimal(started));
    }
    assert(fits_one_line("mode="@ + "shared"@)) by {
        reveal_strlit("mode=");
        reveal_strlit("shared");
        lemma_field_line("mode="@, "shared"@);
    }
    assert(fits_one_line("mode="@ + "exclusive"@)) by {
        reveal_strlit("mode=");
        reveal_strlit("exclusive");
        lemma_field_line("mode="@, "exclusive"@);
    }
}

/// The lines of a text of four whole lines.
proof fn lemma_four_lines(first: Seq<char>, second: Seq<char>, third: Seq<char>, fourth: Seq<char>)
    requires
        fits_one_line(first),
        fits_one_line(second),
        fits_one_line(third),
        fits_one_line(fourth),
    ensures
        ({
            let feed = seq!['\n'];
            lines_of(
                first + feed + (second + feed + (third + feed + (fourth + feed + Seq::empty()))),
            ) == seq![first, second, third, fourth]
        }),
{
    let feed = seq!['\n'];
    let from_fourth = fourth + feed + Seq::empty();
    let from_third = third + feed + from_fourth;
    let from_second = second + feed + from_third;
    lemma_first_line(fourth, Seq::empty());
    lemma_first_line(third, from_fourth);
    lemma_first_line(second, from_third);
    lemma_first_line(first, from_second);
    assert(lines_of(Seq::<char>::empty()) =~= Seq::empty());
    assert(seq![first] + (seq![second] + (seq![third] + (seq![fourth] + Seq::empty()))) =~= seq![
        first,
        second,
        third,
        fourth,
    ]);
}

/// The four lines of a sidecar.
proof fn lemma_sidecar_lines(
    pid: nat,
    label: Option<Seq<char>>,
    since_epoch: Option<u64>,
    shared: bool,
)
    requires
        label matches Some(text) ==> fits_one_line(text),
    ensures
        lines_of(contents_of(pid, label, since_epoch, shared)) == seq![
            "pid="@ + decimal(pid),
            "label="@ + label.unwrap_or(Seq::empty()),
            "started="@ + decimal(since_epoch.unwrap_or(0) as nat),
            "mode="@ + (if shared {
                "shared"@
            } else {
                "exclusive"@
            }),
        ],
{
    let text = label.unwrap_or(Seq::empty());
    let started = since_epoch.unwrap_or(0) as nat;
    let mode = if shared {
        "shared"@
    } else {
        "exclusive"@
    };
    lemma_contents_by_line(decimal(pid), text, decimal(started), mode);
    lemma_sidecar_fields_fit(pid, text, started);
    lemma_four_lines(
        "pid="@ + decimal(pid),
        "label="@ + text,
        "started="@ + decimal(started),
        "mode="@ + mode,
    );
}

proof fn lemma_not_the_key(key: Seq<char>, line: Seq<char>)
    requires
        key.len() > 0,
        line.len() > 0,
        key[0] != line[0],
    ensures
        !key.is_prefix_of(line),
{
    if key.is_prefix_of(line) {
        assert(line.subrange(0, key.len() as int)[0] == line[0]);
    }
}

/// The value of a key that begins one line and no later one.
proof fn lemma_field(lines: Seq<Seq<char>>, at: int, key: Seq<char>, value: Seq<char>)
    requires
        0 <= at < lines.len(),
        lines[at] == key + value,
        forall|i: int| at < i < lines.len() ==> !key.is_prefix_of(#[trigger] lines[i]),
    ensures
        field_of(lines, key) == value,
    decreases lines.len(),
{
    if at == lines.len() - 1 {
        assert(key.is_prefix_of(key + value));
        assert((key + value).skip(key.len() as int) =~= value);
    } else {
        assert(lines.last() == lines[lines.len() - 1]);
        let shorter = lines.drop_last();
        assert forall|i: int| at < i < shorter.len() implies !key.is_prefix_of(
            #[trigger] shorter[i],
        ) by {
            assert(shorter[i] == lines[i]);
        }
        lemma_field(shorter, at, key, value);
    }
}

/// The two values of a sidecar's lines that a waiter looks for.
proof fn lemma_sidecar_fields(
    pid: Seq<char>,
    label: Seq<char>,
    started: Seq<char>,
    mode: Seq<char>,
)
    ensures
        ({
            let lines = seq![
                "pid="@ + pid,
                "label="@ + label,
                "started="@ + started,
                "mode="@ + mode,
            ];
            &&& field_of(lines, "pid="@) == pid
            &&& field_of(lines, "label="@) == label
        }),
{
    let lines = seq!["pid="@ + pid, "label="@ + label, "started="@ + started, "mode="@ + mode];
    assert forall|i: int| 0 < i < lines.len() implies !"pid="@.is_prefix_of(
        #[trigger] lines[i],
    ) by {
        reveal_strlit("pid=");
        reveal_strlit("label=");
        reveal_strlit("started=");
        reveal_strlit("mode=");
        lemma_not_the_key("pid="@, lines[i]);
    }
    assert forall|i: int| 1 < i < lines.len() implies !"label="@.is_prefix_of(
        #[trigger] lines[i],
    ) by {
        reveal_strlit("label=");
        reveal_strlit("started=");
        reveal_strlit("mode=");
        lemma_not_the_key("label="@, lines[i]);
    }
    lemma_field(lines, 0, "pid="@, pid);
    lemma_field(lines, 1, "label="@, label);
}

/// What a holder writes, a waiter reads back: the process id, and the label
/// where one was given. The label must fit on one line.
pub proof fn sidecar_reads_back(
    pid: nat,
    label: Option<Seq<char>>,
    since_epoch: Option<u64>,
    shared: bool,
)
    requires
        label matches Some(text) ==> fits_one_line(text),
    ensures
        summary_of(contents_of(pid, label, since_epoch, shared)) == Some(
            match label {
                Some(text) if text.len() > 0 => "pid "@ + decimal(pid) + ", "@ + text,
                _ => "pid "@ + decimal(pid),
            },
        ),
{
    let text = label.unwrap_or(Seq::empty());
    let mode = if shared {
        "shared"@
    } else {
        "exclusive"@
    };
    let started = decimal(since_epoch.unwrap_or(0) as nat);
    let lines = lines_of(contents_of(pid, label, since_epoch, shared));
    decimal_denotes_its_number(pid);
    lemma_sidecar_lines(pid, label, since_epoch, shared);
    lemma_sidecar_fields(decimal(pid), text, started, mode);
    assert(lines == seq![
        "pid="@ + decimal(pid),
        "label="@ + text,
        "started="@ + started,
        "mode="@ + mode,
    ]);
}

proof fn lemma_plain_extension(name: Seq<char>, suffix: Seq<char>)
    requires
        name.len() == 0 || is_plain(name),
        suffix.len() > 2,
        !suffix.contains('/'),
    ensures
        is_plain(name + suffix),
{
    let whole = name + suffix;
    assert forall|i: int| 0 <= i < whole.len() implies whole[i] != '/' by {
        if i < name.len() {
            assert(name.contains(name[i]));
        } else {
            assert(suffix.contains(suffix[i - name.len()]));
        }
    }
    assert(whole.len() > 2);
    assert(seq!['.'].len() == 1 && seq!['.', '.'].len() == 2);
}

/// The names that a platform is asked to put beside the lock file are all apart:
/// the sidecar's is not the lock file's, the temporary file's is neither, and two
/// names, or two processes, are never given the same.
pub proof fn names_are_apart(
    name: Option<Seq<char>>,
    other: Option<Seq<char>>,
    pid: nat,
    other_pid: nat,
)
    ensures
        Some(sidecar_name_of(name)) != name,
        Some(temp_name_of(name, pid)) != name,
        temp_name_of(name, pid) != sidecar_name_of(name),
        sidecar_name_of(name) == sidecar_name_of(other) ==> name.unwrap_or(Seq::empty())
            == other.unwrap_or(Seq::empty()),
        temp_name_of(name, pid) == temp_name_of(name, other_pid) ==> pid == other_pid,
{
    reveal_strlit(".holder");
    reveal_strlit(".holder.tmp.");
    let own = name.unwrap_or(Seq::empty());
    let second = other.unwrap_or(Seq::empty());
    decimal_denotes_its_number(pid);
    decimal_denotes_its_number(other_pid);
    if sidecar_name_of(name) == sidecar_name_of(other) {
        assert((own + ".holder"@).len() == (second + ".holder"@).len());
        assert(own =~= (own + ".holder"@).take(own.len() as int));
        assert(second =~= (second + ".holder"@).take(second.len() as int));
    }
    let stem = own + ".holder.tmp."@;
    if temp_name_of(name, pid) == temp_name_of(name, other_pid) {
        assert(decimal(pid) =~= (stem + decimal(pid)).skip(stem.len() as int));
        assert(decimal(other_pid) =~= (stem + decimal(other_pid)).skip(stem.len() as int));
    }
}

/// The names made from a lock file's are such as can stand for an entry of a
/// directory.
proof fn lemma_names_are_plain(name: Option<Seq<char>>, pid: nat)
    requires
        name matches Some(own) ==> is_plain(own),
    ensures
        is_plain(sidecar_name_of(name)),
        is_plain(temp_name_of(name, pid)),
{
    reveal_strlit(".holder");
    reveal_strlit(".holder.tmp.");
    let own = name.unwrap_or(Seq::empty());
    decimal_denotes_its_number(pid);
    lemma_plain_extension(own, ".holder"@);
    assert forall|i: int| 0 <= i < decimal(pid).len() implies decimal(pid)[i] != '/' by {
        assert('0' <= decimal(pid)[i] <= '9');
    }
    lemma_plain_extension(own, ".holder.tmp."@ + decimal(pid));
    assert(own + (".holder.tmp."@ + decimal(pid)) =~= own + ".holder.tmp."@ + decimal(pid));
}

/// By the rules of POSIX, the sidecar is a file of its own, named after the lock
/// file with `.holder` added: it can be written and removed without touching the
/// lock file.
pub proof fn sidecar_is_not_the_lockfile(lockfile: Seq<char>, rules: PathRules)
    requires
        rules.is_posix(),
    ensures
        file_name_of(sidecar_path_of(lockfile, rules)) == Some(
            match file_name_of(lockfile) {
                Some(name) => name + ".holder"@,
                None => ".holder"@,
            },
        ),
        file_name_of(sidecar_path_of(lockfile, rules)) != file_name_of(lockfile),
        sidecar_path_of(lockfile, rules) != lockfile,
{
    let name = file_name_of(lockfile);
    file_name_is_plain(lockfile);
    lemma_names_are_plain(name, 0);
    names_are_apart(name, name, 0, 0);
    sidecars_are_named_after_lock_files(name.unwrap_or(Seq::empty()), 0);
    sibling_has_the_name(lockfile, sidecar_name_of(name));
}

/// By the rules of POSIX, the temporary file is neither the lock file nor the
/// sidecar.
pub proof fn temp_file_is_apart(lockfile: Seq<char>, pid: nat, rules: PathRules)
    requires
        rules.is_posix(),
    ensures
        file_name_of(temp_path_of(lockfile, pid, rules)) == Some(
            temp_name_of(file_name_of(lockfile), pid),
        ),
        file_name_of(temp_path_of(lockfile, pid, rules)) != file_name_of(lockfile),
        temp_path_of(lockfile, pid, rules) != lockfile,
        temp_path_of(lockfile, pid, rules) != sidecar_path_of(lockfile, rules),
{
    let name = file_name_of(lockfile);
    file_name_is_plain(lockfile);
    lemma_names_are_plain(name, pid);
    names_are_apart(name, name, pid, pid);
    sibling_has_the_name(lockfile, temp_name_of(name, pid));
    sidecar_is_not_the_lockfile(lockfile, rules);
}

/// By the rules of POSIX, no two processes prepare a sidecar under the same name.
pub proof fn temp_files_are_unique(lockfile: Seq<char>, pid: nat, other: nat, rules: PathRules)
    requires
        rules.is_posix(),
        pid != other,
    ensures
        temp_path_of(lockfile, pid, rules) != temp_path_of(lockfile, other, rules),
{
    temp_file_is_apart(lockfile, pid, rules);
    temp_file_is_apart(lockfile, other, rules);
    names_are_apart(file_name_of(lockfile), None, pid, other);
}

/// By the rules of POSIX, the sidecar and the temporary file lie in one directory,
/// so the one can be moved to the other within it: the lock file's, or the one
/// that the path names where it names no file.
pub proof fn sidecar_lies_beside_the_lockfile(lockfile: Seq<char>, pid: nat, rules: PathRules)
    requires
        rules.is_posix(),
    ensures
        directory_of(sidecar_path_of(lockfile, rules)) == trim(
            directory_of(lockfile),
            body_start(lockfile),
        ),
        directory_of(temp_path_of(lockfile, pid, rules)) == directory_of(
            sidecar_path_of(lockfile, rules),
        ),
        file_name_of(lockfile) is Some ==> directory_of(sidecar_path_of(lockfile, rules))
            == directory_of(lockfile),
{
    let name = file_name_of(lockfile);
    file_name_is_plain(lockfile);
    lemma_names_are_plain(name, pid);
    sibling_in_the_same_directory(lockfile, sidecar_name_of(name));
    sibling_in_the_same_directory(lockfile, temp_name_of(name, pid));
}

/// By the rules of POSIX, the sidecar of a lock file whose path has no detours is
/// `<lockfile>.holder`.
pub proof fn sidecar_is_lockfile_dot_holder(lockfile: Seq<char>, rules: PathRules)
    requires
        rules.is_posix(),
        file_name_of(lockfile) matches Some(name) && lockfile == sibling(lockfile, name),
    ensures
        sidecar_path_of(lockfile, rules) == lockfile + ".holder"@,
{
    sibling_with_longer_name(lockfile, ".holder"@);
}

/// By the rules of POSIX, no two lock files share a sidecar: where two paths have
/// the same sidecar, they name the same entry of the same directory.
pub proof fn sidecars_are_not_shared(one: Seq<char>, two: Seq<char>, rules: PathRules)
    requires
        rules.is_posix(),
        sidecar_path_of(one, rules) == sidecar_path_of(two, rules),
    ensures
        file_name_of(one) == file_name_of(two),
        trim(directory_of(one), body_start(one)) == trim(directory_of(two), body_start(two)),
        file_name_of(one) is Some ==> directory_of(one) == directory_of(two),
{
    sidecar_is_not_the_lockfile(one, rules);
    sidecar_is_not_the_lockfile(two, rules);
    sidecar_lies_beside_the_lockfile(one, 0, rules);
    sidecar_lies_beside_the_lockfile(two, 0, rules);
    names_are_apart(file_name_of(one), file_name_of(two), 0, 0);
    file_name_is_plain(one);
    file_name_is_plain(two);
}

/// A sidecar is put in place if and only if both writing and moving it
/// succeeded. Otherwise the temporary file is removed, and nothing else.
pub proof fn sidecar_is_placed_whole_or_not_at_all(
    lockfile: Seq<char>,
    rules: PathRules,
    label: Option<Seq<char>>,
    shared: bool,
    pid: nat,
    since_epoch: Option<u64>,
    last: Option<(Writing, bool)>,
)
    ensures
        ({
            let step = write_step(lockfile, rules, label, shared, pid, since_epoch, last);
            &&& (step matches WriteStep::Finished { guard } ==> {
                guard == if last == Some((Writing::Moving, true)) {
                    Some(sidecar_path_of(lockfile, rules))
                } else {
                    None
                }
            })
            &&& (last matches Some((stage, false)) && stage != Writing::Discarding) ==> step
                == (WriteStepView::Ask {
                stage: Writing::Discarding,
                action: Action::RemoveFile { path: temp_path_of(lockfile, pid, rules) },
            })
        }),
{
}

/// A sidecar is named after its lock file, with `.holder` behind the name, and the
/// file it is prepared in after the sidecar, with `.tmp.` and the process id behind.
pub proof fn sidecars_are_named_after_lock_files(name: Seq<char>, pid: nat)
    ensures
        sidecar_name_of(Some(name)) == name + ".holder"@,
        sidecar_name_of(None) == ".holder"@,
        temp_name_of(Some(name), pid) == name + ".holder"@ + ".tmp."@ + decimal(pid),
        temp_name_of(None, pid) == ".holder"@ + ".tmp."@ + decimal(pid),
{
    reveal_strlit(".holder");
    reveal_strlit(".tmp.");
    reveal_strlit(".holder.tmp.");
    assert(".holder.tmp."@ =~= ".holder"@ + ".tmp."@);
    assert(Seq::<char>::empty() + ".holder"@ =~= ".holder"@);
    assert(Seq::<char>::empty() + ".holder.tmp."@ =~= ".holder.tmp."@);
    assert(name + ".holder.tmp."@ =~= name + ".holder"@ + ".tmp."@);
}

/// How a text comes apart into lines: up to a line feed, or to a carriage return and
/// a line feed, and from there on as the rest does; and what has no ending is a line
/// as it is, unless it is nothing at all.
pub proof fn lines_end_where_they_end(line: Seq<char>, rest: Seq<char>)
    requires
        !line.contains('\n'),
    ensures
        line.len() == 0 || line.last() != '\r' ==> lines_of(line + seq!['\n'] + rest) == seq![line]
            + lines_of(rest),
        lines_of(line + seq!['\r', '\n'] + rest) == seq![line] + lines_of(rest),
        line.len() > 0 ==> lines_of(line) == seq![line],
        lines_of(Seq::empty()) == Seq::<Seq<char>>::empty(),
{
    if line.len() == 0 || line.last() != '\r' {
        lemma_first_line(line, rest);
    }
    let ended = line.push('\r');
    let whole = line + seq!['\r', '\n'] + rest;
    assert(whole =~= ended + seq!['\n'] + rest);
    assert(!ended.contains('\n')) by {
        assert forall|i: int| 0 <= i < ended.len() implies ended[i] != '\n' by {
            if i < line.len() {
                assert(line.contains(line[i]));
            }
        }
    }
    lemma_line_len(ended, rest);
    assert(whole.take(ended.len() as int) =~= ended);
    assert(whole.skip((ended.len() + 1) as int) =~= rest);
    assert(ended.drop_last() =~= line);
    if line.len() > 0 {
        lemma_unended(line);
    }
}

/// A text without a line feed reaches to its end.
proof fn lemma_unended(line: Seq<char>)
    requires
        !line.contains('\n'),
    ensures
        line_len(line) == line.len(),
    decreases line.len(),
{
    if line.len() > 0 {
        assert(line.contains(line[0]));
        let rest = line.skip(1);
        assert(!rest.contains('\n')) by {
            assert forall|i: int| 0 <= i < rest.len() implies rest[i] != '\n' by {
                assert(line.contains(line[i + 1]));
            }
        }
        lemma_unended(rest);
    }
}

/// How a key is looked up: the last line that begins with it counts, and what follows
/// the key in it is the value; other lines make no difference.
pub proof fn last_line_with_the_key_counts(
    lines: Seq<Seq<char>>,
    key: Seq<char>,
    value: Seq<char>,
    other: Seq<char>,
)
    requires
        other.len() < key.len() || other.take(key.len() as int) != key,
    ensures
        field_of(Seq::empty(), key) == Seq::<char>::empty(),
        field_of(lines.push(key + value), key) == value,
        field_of(lines.push(other), key) == field_of(lines, key),
{
    let with = lines.push(key + value);
    assert(with.last() == key + value);
    assert(key.is_prefix_of(key + value));
    assert((key + value).skip(key.len() as int) =~= value);
    let without = lines.push(other);
    assert(without.drop_last() =~= lines);
    if key.is_prefix_of(other) {
        assert(other.take(key.len() as int) =~= other.subrange(0, key.len() as int));
    }
}

/// What a sidecar's text amounts to: nothing without a process id; with one, that, and
/// the label where there is one.
pub proof fn summary_names_process_and_label(contents: Seq<char>)
    ensures
        ({
            let pid = field_of(lines_of(contents), "pid="@);
            let label = field_of(lines_of(contents), "label="@);
            match summary_of(contents) {
                None => pid.len() == 0,
                Some(account) => pid.len() > 0 && account == if label.len() > 0 {
                    "pid "@ + pid + ", "@ + label
                } else {
                    "pid "@ + pid
                },
            }
        }),
{
}

/// A sidecar says when the lock was taken and of what kind it is, each under its own
/// key.
pub proof fn sidecar_keeps_time_and_kind(
    pid: nat,
    label: Option<Seq<char>>,
    since_epoch: Option<u64>,
    shared: bool,
)
    requires
        label matches Some(text) ==> fits_one_line(text),
    ensures
        ({
            let lines = lines_of(contents_of(pid, label, since_epoch, shared));
            &&& lines.len() == 4
            &&& field_of(lines, "started="@) == decimal(
                match since_epoch {
                    Some(seconds) => seconds as nat,
                    None => 0,
                },
            )
            &&& field_of(lines, "mode="@) == if shared {
                "shared"@
            } else {
                "exclusive"@
            }
        }),
{
    let started = decimal(since_epoch.unwrap_or(0) as nat);
    let mode = if shared {
        "shared"@
    } else {
        "exclusive"@
    };
    let lines = lines_of(contents_of(pid, label, since_epoch, shared));
    lemma_sidecar_lines(pid, label, since_epoch, shared);
    assert(lines[2] == "started="@ + started);
    assert(lines[3] == "mode="@ + mode);
    assert(!"started="@.is_prefix_of(lines[3])) by {
        reveal_strlit("started=");
        reveal_strlit("mode=");
        lemma_not_the_key("started="@, lines[3]);
    }
    lemma_field(lines, 2, "started="@, started);
    lemma_field(lines, 3, "mode="@, mode);
}

/// On every platform the sidecar, and the file it is prepared in, are what the platform
/// puts beside the lock file under a name made from the lock file's.
pub proof fn sidecars_are_put_beside_lock_files(lockfile: Seq<char>, pid: nat, rules: PathRules)
    ensures
        ({
            let name = match file_name_on(lockfile, rules) {
                Some(own) => own,
                None => Seq::empty(),
            };
            &&& sidecar_path_of(lockfile, rules) == sibling_on(lockfile, name + ".holder"@, rules)
            &&& temp_path_of(lockfile, pid, rules) == sibling_on(
                lockfile,
                name + ".holder.tmp."@ + decimal(pid),
                rules,
            )
        }),
{
}

} // verus!
