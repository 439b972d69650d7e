use addrsyncd::error::{map_required_syscall_io, AppError, IoError, IoKind};
use addrsyncd::ip_key::{IpAddr, IpKey};
use addrsyncd::ip_set::{IpSet, PendingMap};
use addrsyncd::kernel::{is_required_syscall_errno, poll_outcome, poll_timeout_ms, PollOutcome};
use addrsyncd::netlink::rule::RuleAction;
use addrsyncd::sys::{self, ArchNumbers};
use addrsyncd::text::{
    chars_of, parse_i64, parse_unsigned, push_dec, push_dec_signed, split_lines, split_words,
    str_contains, trim_str,
};

fn io(code: i32) -> IoError {
    IoError {
        raw_os_error: Some(code),
        kind: IoKind::Other,
        text: "text".to_string(),
    }
}

#[test]
fn numbers_of_the_system_agree_with_libc() {
    assert_eq!(sys::AF_INET, libc::AF_INET);
    assert_eq!(sys::AF_INET6, libc::AF_INET6);
    assert_eq!(sys::ENOENT, libc::ENOENT);
    assert_eq!(sys::ESRCH, libc::ESRCH);
    assert_eq!(sys::EINTR, libc::EINTR);
    assert_eq!(sys::EAGAIN, libc::EAGAIN);
    assert_eq!(sys::EAGAIN, libc::EWOULDBLOCK);
    assert_eq!(sys::EEXIST, libc::EEXIST);
    assert_eq!(sys::NLMSG_ERROR as i32, libc::NLMSG_ERROR);
    assert_eq!(sys::NLMSG_DONE as i32, libc::NLMSG_DONE);
    assert_eq!(sys::NLM_F_REQUEST as i32, libc::NLM_F_REQUEST);
    assert_eq!(sys::NLM_F_ACK as i32, libc::NLM_F_ACK);
    assert_eq!(sys::NLM_F_REPLACE as i32, libc::NLM_F_REPLACE);
    assert_eq!(sys::NLM_F_EXCL as i32, libc::NLM_F_EXCL);
    assert_eq!(sys::NLM_F_CREATE as i32, libc::NLM_F_CREATE);
    assert_eq!(sys::NLM_F_DUMP as i32, libc::NLM_F_DUMP);
    assert_eq!(sys::RTM_NEWADDR, libc::RTM_NEWADDR);
    assert_eq!(sys::RTM_DELADDR, libc::RTM_DELADDR);
    assert_eq!(sys::RTM_GETADDR, libc::RTM_GETADDR);
    assert_eq!(sys::RTM_NEWROUTE, libc::RTM_NEWROUTE);
    assert_eq!(sys::RTM_DELROUTE, libc::RTM_DELROUTE);
    assert_eq!(sys::RTM_NEWRULE, libc::RTM_NEWRULE);
    assert_eq!(sys::RTM_DELRULE, libc::RTM_DELRULE);
    assert_eq!(sys::RTM_GETRULE, libc::RTM_GETRULE);
    assert_eq!(sys::IFA_ADDRESS, libc::IFA_ADDRESS);
    assert_eq!(sys::IFA_LOCAL, libc::IFA_LOCAL);
    assert_eq!(sys::RTPROT_BOOT, libc::RTPROT_BOOT);
    assert_eq!(sys::RT_SCOPE_UNIVERSE, libc::RT_SCOPE_UNIVERSE);
    assert_eq!(sys::RT_SCOPE_HOST, libc::RT_SCOPE_HOST);
    assert_eq!(sys::RTN_UNICAST, libc::RTN_UNICAST);
    assert_eq!(sys::RTN_LOCAL, libc::RTN_LOCAL);
}

#[test]
fn errors_have_their_texts() {
    assert_eq!(AppError::message("m").to_text(), "m");
    assert_eq!(AppError::config("m").to_text(), "config: m");
    assert_eq!(AppError::netlink("m").to_text(), "netlink: m");
    assert_eq!(AppError::Io(io(5)).to_text(), "io: text");
}

const ARCH: ArchNumbers = ArchNumbers {
    enosys: libc::ENOSYS,
    eopnotsupp: libc::EOPNOTSUPP,
    eprotonosupport: libc::EPROTONOSUPPORT,
    sigusr1: libc::SIGUSR1 as u32,
};

#[test]
fn missing_system_calls_have_the_numbers_of_the_architecture() {
    let mips = ArchNumbers { enosys: 89, eopnotsupp: 122, eprotonosupport: 120, sigusr1: 16 };
    for code in [89, 122, 120] {
        assert!(is_required_syscall_errno(code, mips));
    }
    for code in [38, 95, 93] {
        assert!(!is_required_syscall_errno(code, mips));
    }
    assert!(is_required_syscall_errno(libc::EOPNOTSUPP, ARCH));
    assert!(is_required_syscall_errno(libc::EPROTONOSUPPORT, ARCH));
}

#[test]
fn missing_system_calls_are_reported_alike() {
    assert!(is_required_syscall_errno(libc::ENOSYS, ARCH));
    assert!(!is_required_syscall_errno(libc::EPERM, ARCH));
    let direct = AppError::from_required_syscall_io(io(libc::ENOSYS), ARCH).to_text();
    assert!(direct.contains("required kernel >= 5.10"));
    let mapped = AppError::from(map_required_syscall_io(io(libc::ENOSYS), ARCH));
    assert_eq!(mapped.to_text(), direct);
    let plain = AppError::from(map_required_syscall_io(io(libc::EPERM), ARCH));
    assert_eq!(plain.to_text(), "io: text");
    assert_eq!(
        AppError::from_required_syscall_io(io(libc::EPERM), ARCH).to_text(),
        "io: text"
    );
}

#[test]
fn waits_are_bounded() {
    assert_eq!(poll_timeout_ms(0, 1_500_000), Some(1));
    assert_eq!(poll_timeout_ms(5, 5), None);
    assert_eq!(poll_timeout_ms(0, u128::MAX), Some(i32::MAX));
    assert_eq!(poll_outcome(1, None), PollOutcome::Ready);
    assert_eq!(poll_outcome(0, None), PollOutcome::TimedOut);
    assert_eq!(poll_outcome(-1, Some(libc::EINTR)), PollOutcome::Retry);
    assert_eq!(poll_outcome(-1, Some(libc::EBADF)), PollOutcome::Failed);
}

#[test]
fn sets_of_keys_hold_both_families() {
    let four = IpKey::from_ip(IpAddr::V4([0, 0, 0, 7]));
    let six = IpKey::from_ip(IpAddr::V6([0, 0, 0, 0, 0, 0, 0, 0, 0, 0, 0, 0, 0, 0, 0, 7]));
    let mut set = IpSet::new();
    assert!(set.insert(six));
    assert!(set.insert(four));
    assert!(!set.insert(four));
    assert!(set.contains(&four));
    assert_eq!(set.sorted_keys(), vec![four, six]);
    assert_eq!(set.keys().len(), 2);
    assert!(set.remove(&four));
    assert!(!set.remove(&four));
    assert!(!set.contains(&four));

    let mut pending = PendingMap::new();
    assert!(pending.is_empty());
    pending.insert(four, RuleAction::Add);
    pending.insert(four, RuleAction::Delete);
    assert!(!pending.is_empty());
    assert!(matches!(pending.remove(&four), Some(RuleAction::Delete)));
    assert!(pending.is_empty());
}

#[test]
fn texts_are_taken_apart() {
    assert_eq!(trim_str(" \u{3000}a b\t"), "a b");
    let text = chars_of("one\r\ntwo\n\nthree\r");
    let lines: Vec<String> = split_lines(&text).iter().map(|l| l.iter().collect()).collect();
    assert_eq!(lines, vec!["one", "two", "", "three\r"]);
    let text = chars_of("  a\u{a0}bc\td ");
    let words: Vec<String> = split_words(&text).iter().map(|l| l.iter().collect()).collect();
    assert_eq!(words, vec!["a", "bc", "d"]);
    assert!(str_contains("abcabd", "abd"));
    assert!(!str_contains("abcab", "abd"));
    assert!(str_contains("x", ""));
}

#[test]
fn numbers_are_read_and_written() {
    assert_eq!(parse_unsigned(&chars_of("+255"), 10, 255), Some(255));
    assert_eq!(parse_unsigned(&chars_of("256"), 10, 255), None);
    assert_eq!(parse_unsigned(&chars_of("fF"), 16, 255), Some(255));
    assert_eq!(parse_unsigned(&chars_of("+"), 10, 255), None);
    assert_eq!(parse_i64(&chars_of("-9223372036854775808")), Some(i64::MIN));
    assert_eq!(parse_i64(&chars_of("9223372036854775808")), None);
    assert_eq!(parse_i64(&chars_of("-")), None);
    let mut s = String::new();
    push_dec(&mut s, u128::MAX);
    push_dec_signed(&mut s, i64::MIN);
    assert_eq!(s, format!("{}{}", u128::MAX, i64::MIN));
}
