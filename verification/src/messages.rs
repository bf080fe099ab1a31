//! The lines that go to the standard error stream.

use vstd::prelude::*;

use crate::action::Target;
use crate::text::signed_decimal_text;
#[allow(unused_imports)]
use crate::text::signed_decimal;

verus! {

/// How a message names what is locked: the lock file by its path, a descriptor
/// by its number.
pub open spec fn description_of(target: Target, path: Seq<char>) -> Seq<char> {
    match target {
        Target::File => path,
        Target::Descriptor(fd) => "fd "@ + signed_decimal(fd as int),
    }
}

/// Said before waiting, with an account of the holder where there is one.
pub open spec fn waiting_line(description: Seq<char>, holder: Option<Seq<char>>) -> Seq<char> {
    match holder {
        Some(account) => "flock: waiting for lock on "@ + description + " (held by "@ + account
            + ")"@,
        None => "flock: waiting for lock on "@ + description,
    }
}

/// Said where the lock file's lock was not had in time.
pub open spec fn refused_line(holder: Option<Seq<char>>) -> Seq<char> {
    match holder {
        Some(account) => "flock: failed to acquire lock (held by "@ + account + ")"@,
        None => "flock: failed to acquire lock"@,
    }
}

/// Said of a descriptor: `verb` is what came of its lock.
pub open spec fn descriptor_line(verb: Seq<char>, fd: int) -> Seq<char> {
    "flock: "@ + verb + " lock on fd "@ + signed_decimal(fd)
}

/// Said once the lock file's lock is held.
pub open spec fn acquired_line(seconds: Seq<char>) -> Seq<char> {
    "flock: acquired lock after "@ + seconds + "s"@
}

/// Said where a command could not be started.
pub open spec fn fault_line(program: Seq<char>, cause: Seq<char>) -> Seq<char> {
    "flock: "@ + program + ": "@ + cause
}

/// Said of a failure: what was being done, then the cause.
pub open spec fn failure_line(attempt: Seq<char>, cause: Seq<char>) -> Seq<char> {
    "flock: "@ + attempt + ": "@ + cause
}

/// What was being done when the lock file could not be opened.
pub open spec fn opening(path: Seq<char>) -> Seq<char> {
    "opening lock file "@ + path
}

/// What was being done when taking the lock failed.
pub open spec fn acquiring(target: Target) -> Seq<char> {
    match target {
        Target::File => "acquiring lock"@,
        Target::Descriptor(fd) => "acquiring lock on fd "@ + signed_decimal(fd as int),
    }
}

/// What was being done when giving up a descriptor's lock failed.
pub open spec fn unlocking(fd: int) -> Seq<char> {
    "unlocking fd "@ + signed_decimal(fd)
}

/// A cause, behind the step of a timed wait in which it came up.
pub open spec fn wait_cause(step: Seq<char>, cause: Seq<char>) -> Seq<char> {
    step + ": "@ + cause
}

/// Said where a lock target without a command spells no descriptor. `quoted` is
/// the target in quotes.
pub open spec fn no_descriptor_line(quoted: Seq<char>) -> Seq<char> {
    "flock: expected a command after the lock target, or a bare integer file descriptor for descriptor mode; got "@
        + quoted
}

/// Said where `-u` comes with a command.
pub open spec fn unlock_misused_line() -> Seq<char> {
    "flock: -u/--unlock is only valid in descriptor mode (no command)"@
}

/// Said where there are no descriptors to lock.
pub open spec fn no_descriptors_line() -> Seq<char> {
    "flock: descriptor lock mode is only supported on unix"@
}

/// A text in double quotes, with what does not print or would end the quotes
/// written as an escape.
pub uninterp spec fn debug_of(text: Seq<char>) -> Seq<char>;

/// Quotes a text as `{:?}` of std's formatting macros does. Of the result this
/// claims only that it depends on nothing but the text.
#[verifier::external_body]
fn debug_text(text: &str) -> (quoted: String)
    ensures
        quoted@ == debug_of(text@),
{
    format!("{:?}", text)
}

fn concat2(a: &str, b: &str) -> (whole: String)
    ensures
        whole@ == a@ + b@,
{
    let mut whole = a.to_owned();
    whole.append(b);
    whole
}

fn concat4(a: &str, b: &str, c: &str, d: &str) -> (whole: String)
    ensures
        whole@ == a@ + b@ + c@ + d@,
{
    let mut whole = a.to_owned();
    whole.append(b);
    whole.append(c);
    whole.append(d);
    whole
}

/// Names what is locked.
pub fn description(target: Target, path: &str) -> (text: String)
    ensures
        text@ == description_of(target, path@),
{
    match target {
        Target::File => path.to_owned(),
        Target::Descriptor(fd) => {
            let digits = signed_decimal_text(fd);
            concat2("fd ", digits.as_str())
        },
    }
}

/// The line that announces a wait.
pub fn waiting(description: &str, holder: Option<&str>) -> (line: String)
    ensures
        line@ == waiting_line(description@, holder.deep_view()),
{
    let mut line = concat2("flock: waiting for lock on ", description);
    if let Some(account) = holder {
        line.append(" (held by ");
        line.append(account);
        line.append(")");
    }
    line
}

/// The line that reports a refusal on a lock file.
pub fn refused(holder: Option<&str>) -> (line: String)
    ensures
        line@ == refused_line(holder.deep_view()),
{
    match holder {
        Some(account) => {
            let mut line = concat2("flock: failed to acquire lock (held by ", account);
            line.append(")");
            line
        },
        None => "flock: failed to acquire lock".to_owned(),
    }
}

/// The line that reports what came of a descriptor's lock.
pub fn descriptor_report(verb: &str, fd: i32) -> (line: String)
    ensures
        line@ == descriptor_line(verb@, fd as int),
{
    let digits = signed_decimal_text(fd);
    concat4("flock: ", verb, " lock on fd ", digits.as_str())
}

/// The line that reports the lock held.
pub fn acquired(seconds: &str) -> (line: String)
    ensures
        line@ == acquired_line(seconds@),
{
    let mut line = concat2("flock: acquired lock after ", seconds);
    line.append("s");
    line
}

/// The line that reports a command that could not be started.
pub fn fault(program: &str, cause: &str) -> (line: String)
    ensures
        line@ == fault_line(program@, cause@),
{
    concat4("flock: ", program, ": ", cause)
}

/// The line that reports that the lock file could not be opened.
pub fn open_failure(path: &str, cause: &str) -> (line: String)
    ensures
        line@ == failure_line(opening(path@), cause@),
{
    let attempt = concat2("opening lock file ", path);
    concat4("flock: ", attempt.as_str(), ": ", cause)
}

/// The line that reports that taking the lock failed.
pub fn acquire_failure(target: Target, cause: &str) -> (line: String)
    ensures
        line@ == failure_line(acquiring(target), cause@),
{
    let attempt = match target {
        Target::File => "acquiring lock".to_owned(),
        Target::Descriptor(fd) => {
            let digits = signed_decimal_text(fd);
            concat2("acquiring lock on fd ", digits.as_str())
        },
    };
    concat4("flock: ", attempt.as_str(), ": ", cause)
}

/// The line that reports that giving up a descriptor's lock failed.
pub fn unlock_failure(fd: i32, cause: &str) -> (line: String)
    ensures
        line@ == failure_line(unlocking(fd as int), cause@),
{
    let digits = signed_decimal_text(fd);
    let attempt = concat2("unlocking fd ", digits.as_str());
    concat4("flock: ", attempt.as_str(), ": ", cause)
}

/// Puts the step of a timed wait before the cause that came up in it.
pub fn wait_failure(step: &str, cause: &str) -> (text: String)
    ensures
        text@ == wait_cause(step@, cause@),
{
    let mut text = concat2(step, ": ");
    text.append(cause);
    text
}

/// The line for a lock target that spells no descriptor, given in quotes.
pub fn no_descriptor(quoted: &str) -> (line: String)
    ensures
        line@ == no_descriptor_line(quoted@),
{
    concat2(
        "flock: expected a command after the lock target, or a bare integer file descriptor for descriptor mode; got ",
        quoted,
    )
}

/// The line for a lock target that spells no descriptor.
pub fn not_a_descriptor(target: &str) -> (line: String)
    ensures
        line@ == no_descriptor_line(debug_of(target@)),
{
    let quoted = debug_text(target);
    no_descriptor(quoted.as_str())
}

/// The line for `-u` with a command.
pub fn unlock_misused() -> (line: String)
    ensures
        line@ == unlock_misused_line(),
{
    "flock: -u/--unlock is only valid in descriptor mode (no command)".to_owned()
}

/// The line for a platform without descriptors.
pub fn no_descriptors() -> (line: String)
    ensures
        line@ == no_descriptors_line(),
{
    "flock: descriptor lock mode is only supported on unix".to_owned()
}

} // verus!
