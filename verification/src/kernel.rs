//! What the daemon asks of the kernel, and how it waits for a descriptor.
use crate::sys::{ArchNumbers, EINTR};
use vstd::prelude::*;

verus! {

/// The oldest kernel that the daemon supports.
pub const MIN_VERSION: &'static str = "5.10";

/// What a missing system call is reported as.
pub const UNSUPPORTED_SYSCALL_MSG: &'static str =
    "unsupported kernel (<5.10 or missing required syscall)";

/// The error numbers by which a kernel says that it lacks a required system call.
pub open spec fn required_syscall_errno(code: i32, arch: ArchNumbers) -> bool {
    code == arch.enosys || code == arch.eopnotsupp || code == arch.eprotonosupport
}

/// Whether an error number says that a required system call is missing.
pub fn is_required_syscall_errno(code: i32, arch: ArchNumbers) -> (r: bool)
    ensures
        r == required_syscall_errno(code, arch),
{
    code == arch.enosys || code == arch.eopnotsupp || code == arch.eprotonosupport
}

/// Nanoseconds in a millisecond.
pub const NANOS_PER_MILLI: u64 = 1_000_000;

/// The whole milliseconds, at most `i32::MAX`, that `poll` may wait at time `now` for a deadline,
/// both in nanoseconds; `None` where the deadline has come.
pub open spec fn poll_timeout(now: int, deadline: int) -> Option<int> {
    if now >= deadline {
        None
    } else if (deadline - now) / 1_000_000 > 0x7FFF_FFFF {
        Some(0x7FFF_FFFF)
    } else {
        Some((deadline - now) / 1_000_000)
    }
}

/// The timeout to hand to `poll`, or `None` where the deadline has come.
pub fn poll_timeout_ms(now: u64, deadline: u128) -> (r: Option<i32>)
    ensures
        match r {
            Some(ms) => poll_timeout(now as int, deadline as int) == Some(ms as int),
            None => poll_timeout(now as int, deadline as int) is None,
        },
{
    let now: u128 = now as u128;
    if now >= deadline {
        return None;
    }
    let ms: u128 = (deadline - now) / 1_000_000;
    if ms > 0x7FFF_FFFF {
        Some(0x7FFF_FFFF)
    } else {
        Some(ms as i32)
    }
}

/// What a return of `poll` means to a waiter.
#[derive(Debug, Clone, Copy, PartialEq, Eq, Structural)]
pub enum PollOutcome {
    /// The descriptor can be read.
    Ready,
    /// The timeout passed first.
    TimedOut,
    /// A signal interrupted the call: look at the clock and wait again.
    Retry,
    /// The call failed.
    Failed,
}

/// Reads the return value of `poll` and, where it failed, the error number.
pub fn poll_outcome(rc: i32, errno: Option<i32>) -> (r: PollOutcome)
    ensures
        r == (if rc == 0 {
            PollOutcome::TimedOut
        } else if rc > 0 {
            PollOutcome::Ready
        } else if errno == Some(EINTR) {
            PollOutcome::Retry
        } else {
            PollOutcome::Failed
        }),
        r == PollOutcome::Ready <==> rc > 0,
        r == PollOutcome::TimedOut <==> rc == 0,
        r == PollOutcome::Retry <==> rc < 0 && errno == Some(4i32),
{
    if rc == 0 {
        return PollOutcome::TimedOut;
    }
    if rc < 0 {
        return match errno {
            Some(code) => if code == EINTR {
                PollOutcome::Retry
            } else {
                PollOutcome::Failed
            },
            None => PollOutcome::Failed,
        };
    }
    PollOutcome::Ready
}

} // verus!
