//! How faults are told apart, and what is said of them.
use crate::cli::{PbrAction, PbrFamily, PbrRequest};
use crate::control::{not_running_text, status_text};
use crate::daemon::state::action_name;
use crate::error::{
    error_of_io, error_text, mapped_syscall_error, names_missing_syscall, required_syscall_error,
    ErrorView, IoErrorView, IoKind,
};
use crate::kernel::{required_syscall_errno, UNSUPPORTED_SYSCALL_MSG};
use crate::netlink::pbr::request_text;
use crate::netlink::rule::{
    wait_error_text, wait_kind_name, AckWaitError, AckWaitErrorKind, RuleAction,
};
use crate::sys::ArchNumbers;
use crate::text::{contains_text, dec, dec_signed, numeral, occurs_at};
use vstd::prelude::*;

verus! {

/// A system call is missing where the kernel says that it knows no such call, or that it does not
/// support the operation or the protocol, by the machine's own numbers, and nowhere else.
pub proof fn missing_calls_are_told_by_number(e: IoErrorView, code: i32, arch: ArchNumbers)
    ensures
        required_syscall_errno(code, arch) <==> code == arch.enosys || code == arch.eopnotsupp
            || code == arch.eprotonosupport,
        e.raw_os_error is None ==> !names_missing_syscall(e, arch),
        e.raw_os_error == Some(code) ==> (names_missing_syscall(e, arch) <==> required_syscall_errno(
            code,
            arch,
        )),
        !names_missing_syscall(e, arch) ==> required_syscall_error(e, arch) == ErrorView::Io(e)
            && mapped_syscall_error(e, arch) == e,
        names_missing_syscall(e, arch) ==> required_syscall_error(e, arch) is Message
            && mapped_syscall_error(e, arch).kind == IoKind::Unsupported && mapped_syscall_error(
            e,
            arch,
        ).raw_os_error is None && required_syscall_error(e, arch) == ErrorView::Message(
            mapped_syscall_error(e, arch).text,
        ),
{
}

/// A fault of input or output is passed on as such, unless it says that the kernel is too old.
pub proof fn faults_are_passed_on(e: IoErrorView)
    ensures
        e.kind != IoKind::Unsupported ==> error_of_io(e) == ErrorView::Io(e),
        !contains_text(e.text, UNSUPPORTED_SYSCALL_MSG@) ==> error_of_io(e) == ErrorView::Io(e),
        e.kind == IoKind::Unsupported && contains_text(e.text, UNSUPPORTED_SYSCALL_MSG@)
            ==> error_of_io(e) == ErrorView::Message(e.text),
{
}

/// A text holds another if and only if it is something, the other, and something.
pub proof fn texts_hold_their_parts(
    before: Seq<char>,
    part: Seq<char>,
    after: Seq<char>,
    s: Seq<char>,
)
    ensures
        contains_text(before + part + after, part),
        contains_text(s, part) ==> exists|i: int|
            0 <= i && i + part.len() <= s.len() && s == #[trigger] s.take(i) + part + s.skip(
                i + part.len(),
            ),
{
    let whole = before + part + after;
    let at = before.len() as int;
    assert(whole.subrange(at, at + part.len()) =~= part);
    assert(occurs_at(whole, part, at));
    if contains_text(s, part) {
        let i = choose|i: int| occurs_at(s, part, i);
        assert(s =~= s.take(i) + part + s.skip(i + part.len()));
    }
}

/// An error names its source before what it says; a plain message says nothing more.
pub proof fn errors_name_their_source(s: Seq<char>, e: IoErrorView)
    ensures
        error_text(ErrorView::Message(s)) == s,
        error_text(ErrorView::Config(s)) == "config: "@ + s,
        error_text(ErrorView::Netlink(s)) == "netlink: "@ + s,
        error_text(ErrorView::Io(e)) == "io: "@ + e.text,
{
}

/// What is said of a request names what was done, the family, the mark and the mask in hexadecimal,
/// and the table and the priority in decimal.
pub proof fn requests_are_told_in_full(r: PbrRequest)
    ensures
        ({
            let done = match r.action {
                PbrAction::Apply => "pbr applied family="@,
                PbrAction::Cleanup => "pbr cleaned family="@,
                PbrAction::Status => "pbr target family="@,
            };
            let family = match r.family {
                PbrFamily::Ipv4 => "ipv4"@,
                PbrFamily::Ipv6 => "ipv6"@,
            };
            request_text(r) == done + family + " mark=0x"@ + numeral(r.mark as nat, 16) + "/0x"@
                + numeral(r.mask as nat, 16) + " table="@ + dec(r.table as nat) + " pref="@ + dec(
                r.pref as nat,
            )
        }),
{
}

/// What is said of a wait that failed names its kind and its counts.
pub proof fn failed_waits_are_told_in_full(e: AckWaitError)
    ensures
        wait_kind_name(AckWaitErrorKind::Timeout) == "timeout"@,
        wait_kind_name(AckWaitErrorKind::SeqMismatch) == "seq_mismatch"@,
        wait_kind_name(AckWaitErrorKind::NonAck) == "non_ack"@,
        wait_error_text(e) == "ack_wait_failed kind="@ + wait_kind_name(e.kind) + " pending="@
            + dec(e.pending as nat) + " count_seq_mismatch="@ + dec(e.count_seq_mismatch as nat)
            + " count_non_ack="@ + dec(e.count_non_ack as nat),
{
}

/// A daemon runs under its number, or is stopped; with a configuration that cannot be used it counts
/// as stopped, whatever runs.
pub proof fn status_is_told(text: Seq<char>, pid: i32, other: Option<i32>)
    ensures
        status_text(Some(text), other) == "stopped(config invalid: "@ + text + ")"@,
        status_text(None, Some(pid)) == "running pid="@ + dec_signed(pid as int),
        status_text(None, None) == "stopped"@,
        not_running_text(false) == "addrsyncd not running"@,
        not_running_text(true) == "addrsyncd not running (tip: use absolute --work-dir)"@,
        action_name(RuleAction::Add) == "add"@,
        action_name(RuleAction::Delete) == "delete"@,
{
}

} // verus!
