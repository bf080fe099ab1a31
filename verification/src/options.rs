//! What a run was asked to do.

use vstd::prelude::*;

use crate::paths::PathRules;

verus! {

/// What the command line asked for.
#[derive(Debug)]
pub struct Opts {
    /// Give up at once where the lock is held.
    pub nonblock: bool,
    /// Wait at most this long: the bits of a number of seconds in IEEE 754
    /// double precision.
    pub timeout: Option<u64>,
    /// Take a shared lock.
    pub shared: bool,
    /// Take an exclusive lock, which is what happens without `shared` anyway.
    pub exclusive: bool,
    /// The exit code where the lock could not be had in time.
    pub conflict_exit_code: i32,
    /// Who this is, for the sidecar.
    pub label: Option<String>,
    /// Give up the lock on a descriptor.
    pub unlock: bool,
    /// Report on waiting and acquisition.
    pub verbose: bool,
    /// How the platform takes paths apart.
    pub rules: PathRules,
    /// The lock file's path, or a descriptor where no command follows.
    pub target: String,
    /// The command to run under the lock and its arguments.
    pub command: Vec<String>,
}

/// The options as contracts see them.
pub struct OptsView {
    pub nonblock: bool,
    pub timeout: Option<u64>,
    pub shared: bool,
    pub exclusive: bool,
    pub conflict_exit_code: i32,
    pub label: Option<Seq<char>>,
    pub unlock: bool,
    pub verbose: bool,
    pub rules: PathRules,
    pub target: Seq<char>,
    pub command: Seq<Seq<char>>,
}

impl View for Opts {
    type V = OptsView;

    open spec fn view(&self) -> OptsView {
        OptsView {
            nonblock: self.nonblock,
            timeout: self.timeout,
            shared: self.shared,
            exclusive: self.exclusive,
            conflict_exit_code: self.conflict_exit_code,
            label: self.label.deep_view(),
            unlock: self.unlock,
            verbose: self.verbose,
            rules: self.rules,
            target: self.target@,
            command: self.command.deep_view(),
        }
    }
}

/// The bits of positive infinity. The bits of a positive number are no more than
/// these, and those of a larger one are larger. Above lie the values that are no
/// numbers, and then everything with a sign.
pub const INFINITY_BITS: u64 = 0x7ff0_0000_0000_0000;

/// The bits of 2 to the 64th power: a time of so many seconds or more is too long
/// to be counted, and the same as no limit.
pub const UNCOUNTED_BITS: u64 = 0x43f0_0000_0000_0000;

/// Whether a timeout leaves no time to wait: the value with these bits is not a
/// positive number. It is a zero, negative, or no number at all.
pub open spec fn is_over(timeout: u64) -> bool {
    timeout == 0 || timeout > INFINITY_BITS
}

/// Whether a timeout is over before any waiting.
pub fn timeout_is_over(timeout: u64) -> (over: bool)
    ensures
        over == is_over(timeout),
        over <==> !(0 < timeout <= 0x7ff0_0000_0000_0000),
{
    timeout == 0 || timeout > INFINITY_BITS
}

/// The limit that a timeout sets to a wait: none without a timeout, and none
/// where it is too long to be counted.
pub open spec fn limit_of(timeout: Option<u64>) -> Option<u64> {
    match timeout {
        Some(bits) if bits < UNCOUNTED_BITS => Some(bits),
        _ => None,
    }
}

/// The limit that a timeout sets to a wait.
pub fn wait_limit(timeout: Option<u64>) -> (limit: Option<u64>)
    ensures
        limit == limit_of(timeout),
        match timeout {
            Some(bits) => if bits < 0x43f0_0000_0000_0000 {
                limit == timeout
            } else {
                limit is None
            },
            None => limit is None,
        },
{
    match timeout {
        Some(bits) => if bits < UNCOUNTED_BITS {
            Some(bits)
        } else {
            None
        },
        None => None,
    }
}

/// A timeout leaves time to wait exactly if it is a positive number: its bits are
/// above 0 and no more than those of infinity. It limits the wait to itself if its
/// bits are below those of 2 to the 64th power, and not at all otherwise.
pub proof fn timeout_means_what_it_says(timeout: u64)
    ensures
        is_over(timeout) <==> !(0 < timeout <= 0x7ff0_0000_0000_0000),
        timeout < 0x43f0_0000_0000_0000 ==> limit_of(Some(timeout)) == Some(timeout),
        timeout >= 0x43f0_0000_0000_0000 ==> limit_of(Some(timeout)) is None,
        limit_of(None) is None,
{
}

/// A longer timeout never gives less time: what leaves time still does when it is
/// lengthened to another number, and a limit does not come back once it is gone.
pub proof fn longer_timeouts_wait_longer(shorter: u64, longer: u64)
    requires
        shorter <= longer <= 0x7ff0_0000_0000_0000,
    ensures
        !is_over(shorter) ==> !is_over(longer),
        match (limit_of(Some(shorter)), limit_of(Some(longer))) {
            (Some(one), Some(two)) => one <= two,
            (None, limit) => limit is None,
            (Some(_), None) => true,
        },
{
}

/// Contracts speak of the options as they were given, each of them.
pub proof fn options_are_seen_whole(opts: Opts)
    ensures
        opts@.nonblock == opts.nonblock,
        opts@.timeout == opts.timeout,
        opts@.shared == opts.shared,
        opts@.exclusive == opts.exclusive,
        opts@.conflict_exit_code == opts.conflict_exit_code,
        match opts.label {
            Some(text) => opts@.label == Some(text@),
            None => opts@.label is None,
        },
        opts@.unlock == opts.unlock,
        opts@.verbose == opts.verbose,
        opts@.rules == opts.rules,
        opts@.target == opts.target@,
        opts@.command.len() == opts.command@.len(),
        forall|i: int| 0 <= i < opts.command@.len() ==> #[trigger] opts@.command[i]
            == opts.command@[i]@,
{
}

} // verus!
