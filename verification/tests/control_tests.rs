use addrsyncd::config::RawConfig;
use addrsyncd::control::{
    background_args, candidate_pid, is_addrsyncd_argv0, is_daemon_of, is_not_running_error,
    is_same_process_alive, next_poll_interval, not_running_message, parse_proc_stat_start_ticks,
    parse_ready_fd, parse_run_work_dir, pid_line, read_cmdline_args, ready_outcome, status_line,
    stop_step, ReadyOutcome, StopStep, STOP_POLL_INITIAL, STOP_POLL_MAX,
};
use addrsyncd::error::{AppError, IoError, IoKind};
use addrsyncd::path::{file_name, join_path, normalize_path};

fn strings(args: &[&str]) -> Vec<String> {
    args.iter().map(|a| a.to_string()).collect()
}

fn io(code: i32) -> IoError {
    IoError {
        raw_os_error: Some(code),
        kind: IoKind::Other,
        text: "text".to_string(),
    }
}

#[test]
fn parse_proc_stat_start_ticks_handles_spaces_in_comm() {
    // The second field holds a blank: "(a b)". The field with the start time is 123456789.
    let stat = "123 (a b) S 1 2 3 4 5 6 7 8 9 10 11 12 13 14 15 16 17 18 123456789 20";
    assert_eq!(parse_proc_stat_start_ticks(stat), Some(123456789));
}

#[test]
fn start_ticks_need_their_field() {
    let brackets = "1 (x) y) S 1 2 3 4 5 6 7 8 9 10 11 12 13 14 15 16 17 18 7 20";
    assert_eq!(parse_proc_stat_start_ticks(brackets), Some(7));
    assert_eq!(parse_proc_stat_start_ticks("1 (x) S 1 2 3"), None);
    assert_eq!(parse_proc_stat_start_ticks("no brackets"), None);
    assert_eq!(parse_proc_stat_start_ticks("(x)"), None);
}

#[test]
fn parse_run_work_dir_extracts_global_d() {
    let args = strings(&["/proc/self/exe", "-c", "/tmp/a.toml", "-d", "/work", "run"]);
    let parsed = parse_run_work_dir(&args, None).expect("work dir");
    assert_eq!(parsed, b"/work".to_vec());
}

#[test]
fn parse_run_work_dir_rejects_unknown_global_option() {
    let args = strings(&["/tmp/addrsyncd", "--foo", "run"]);
    assert!(parse_run_work_dir(&args, Some(b"/")).is_none());
}

#[test]
fn run_work_dir_is_seen_from_the_directory_of_the_process() {
    let args = strings(&["addrsyncd", "--work-dir", "../b/.", "run", "--daemon"]);
    assert_eq!(parse_run_work_dir(&args, Some(b"/x/a")), Some(b"/x/b".to_vec()));
    assert_eq!(parse_run_work_dir(&args, None), None);
    let plain = strings(&["addrsyncd", "run"]);
    assert_eq!(parse_run_work_dir(&plain, Some(b"/x")), Some(b"/x".to_vec()));
    assert_eq!(parse_run_work_dir(&strings(&["addrsyncd", "run", "now"]), Some(b"/x")), None);
    assert_eq!(parse_run_work_dir(&strings(&["addrsyncd", "-d"]), Some(b"/x")), None);
    assert_eq!(parse_run_work_dir(&strings(&["addrsyncd", "stop"]), Some(b"/x")), None);
}

#[test]
fn detect_addrsyncd_argv0() {
    assert!(is_addrsyncd_argv0("/data/adb/flux/addrsyncd"));
    assert!(is_addrsyncd_argv0("/tmp/addrsyncd-debug"));
    assert!(!is_addrsyncd_argv0("/system/bin/sh"));
}

#[test]
fn every_name_that_starts_like_the_program_is_its_own() {
    assert!(is_addrsyncd_argv0("addrsyncd2"));
    assert!(is_addrsyncd_argv0("/tmp/addrsyncd.old"));
    assert!(!is_addrsyncd_argv0("/opt/addrsyncd/sh"));
    assert!(!is_addrsyncd_argv0("/tmp/my-addrsyncd"));
    assert!(!is_addrsyncd_argv0("addrsync"));
    assert!(!is_addrsyncd_argv0(""));
    let args = strings(&["/bin/addrsyncd2", "-d", "/w", "run"]);
    assert!(is_daemon_of(&args, None, b"/w"));
}

#[test]
fn a_background_daemon_is_found_by_its_arguments() {
    let args = background_args(b"/w/addrsyncd.toml", b"/w");
    let mut cmdline = b"/bin/addrsyncd\0".to_vec();
    for arg in &args {
        cmdline.extend_from_slice(arg);
        cmdline.push(0);
    }
    let read = read_cmdline_args(&cmdline).expect("arguments");
    assert_eq!(
        read,
        strings(&["/bin/addrsyncd", "-c", "/w/addrsyncd.toml", "-d", "/w", "run"])
    );
    assert!(is_daemon_of(&read, None, b"/w"));
    assert!(!is_daemon_of(&read, None, b"/v"));
    assert!(!is_daemon_of(&strings(&["/bin/sh", "run"]), Some(b"/w"), b"/w"));
    assert!(read_cmdline_args(b"").is_none());
    assert!(read_cmdline_args(b"\0\0").is_none());
    assert_eq!(read_cmdline_args(b"a\xFFb\0"), Some(vec!["a\u{FFFD}b".to_string()]));
}

#[test]
fn processes_are_told_apart() {
    assert_eq!(candidate_pid("12", 5), Some(12));
    assert_eq!(candidate_pid("5", 5), None);
    assert_eq!(candidate_pid("1", 5), None);
    assert_eq!(candidate_pid("self", 5), None);
    assert_eq!(candidate_pid("99999999999", 5), None);
    assert!(is_same_process_alive(Some(3), Some(3)));
    assert!(is_same_process_alive(Some(3), None));
    assert!(!is_same_process_alive(Some(4), Some(3)));
    assert!(!is_same_process_alive(None, None));
    assert!(is_not_running_error(&AppError::Io(io(3))));
    assert!(!is_not_running_error(&AppError::Io(io(1))));
    assert!(!is_not_running_error(&AppError::message("x")));
}

#[test]
fn readiness_is_read() {
    assert_eq!(parse_ready_fd("7"), Some(7));
    assert_eq!(parse_ready_fd("-1"), None);
    assert_eq!(parse_ready_fd("4294967296"), None);
    assert_eq!(parse_ready_fd("x"), None);
    assert!(matches!(ready_outcome(1, 1, io(0)), ReadyOutcome::Ready));
    match ready_outcome(1, 9, io(0)) {
        ReadyOutcome::Failed(e) => assert_eq!(e.to_text(), "invalid ready signal byte: 9"),
        _ => panic!("must fail"),
    }
    match ready_outcome(0, 0, io(0)) {
        ReadyOutcome::Failed(e) => {
            assert_eq!(e.to_text(), "ready pipe closed before daemon signaled ready")
        }
        _ => panic!("must fail"),
    }
    assert!(matches!(ready_outcome(-1, 0, io(4)), ReadyOutcome::Retry));
    assert!(matches!(ready_outcome(-1, 0, io(11)), ReadyOutcome::Retry));
    match ready_outcome(-1, 0, io(5)) {
        ReadyOutcome::Failed(e) => assert_eq!(e.to_text(), "io: text"),
        _ => panic!("must fail"),
    }
}

#[test]
fn pauses_double_up_to_their_limit() {
    let mut pause = STOP_POLL_INITIAL;
    let mut pauses = Vec::new();
    for _ in 0..6 {
        pauses.push(pause / 1_000_000);
        pause = next_poll_interval(pause);
    }
    assert_eq!(pauses, vec![20, 40, 80, 160, 250, 250]);
    assert_eq!(next_poll_interval(u64::MAX), STOP_POLL_MAX);
    assert_eq!(stop_step(5, 5, false), StopStep::TimedOut);
    assert_eq!(stop_step(4, 5, false), StopStep::Stopped);
    assert_eq!(stop_step(4, 5, true), StopStep::Wait);
}

#[test]
fn messages_are_worded() {
    assert_eq!(not_running_message(false), "addrsyncd not running");
    assert_eq!(
        not_running_message(true),
        "addrsyncd not running (tip: use absolute --work-dir)"
    );
    assert_eq!(pid_line("addrsyncd stopped pid=", 42), "addrsyncd stopped pid=42");
}

#[test]
fn status_works_without_existing_config() {
    let line = status_line(Some("config: read config failed (/x): gone"), None);
    assert!(line.contains("stopped"));
    assert_eq!(status_line(None, None), "stopped");
    assert_eq!(status_line(None, Some(12)), "running pid=12");
}

#[test]
fn status_reports_invalid_config_reason() {
    let bad = match RawConfig::read("[daemon]\n", b"/x/bad.toml") {
        Ok(_) => panic!("a configuration without its sections was accepted"),
        Err(err) => err.to_text(),
    };
    let line = status_line(Some(&bad), None);
    assert!(line.contains("config invalid"));
    assert_eq!(line, format!("stopped(config invalid: {bad})"));
    let line = status_line(Some("config: parse config failed"), Some(3));
    assert_eq!(line, "stopped(config invalid: config: parse config failed)");
}

#[test]
fn paths_are_normalized() {
    assert_eq!(normalize_path(b"/a//b/./c/../d/"), b"/a/b/d".to_vec());
    assert_eq!(normalize_path(b"/.."), b"/".to_vec());
    assert_eq!(normalize_path(b"a/.."), b"".to_vec());
    assert_eq!(normalize_path(b"../x"), b"x".to_vec());
    let once = normalize_path(b"/x/./y//..");
    assert_eq!(normalize_path(&once), once);
    assert_eq!(join_path(b"/a", b"b"), b"/a/b".to_vec());
    assert_eq!(join_path(b"/a/", b"b"), b"/a/b".to_vec());
    assert_eq!(join_path(b"/a", b"/b"), b"/b".to_vec());
    assert_eq!(file_name(b"/a/b/"), Some(&b"b"[..]));
    assert_eq!(file_name(b"/a/.."), None);
    assert_eq!(file_name(b"/"), None);
}

#[test]
fn normalized_paths_hold_plain_names() {
    for path in [&b"/a/./b/../../c/"[..], b"./../x/.", b"/..", b"a//b", b".", b"/"] {
        let normal = normalize_path(path);
        for part in normal.split(|b| *b == b'/') {
            assert!(part != b"." && part != b"..");
        }
    }
}
