//! Finding, starting and stopping a daemon that runs in the background.
use crate::error::{AppError, ErrorView, IoError};
use crate::path::{
    absolute, file_name, is_absolute, join_path, joined_path, last_name, normalize_path,
    normalized, SLASH,
};
use crate::sys::{EAGAIN, EINTR, ESRCH};
use crate::text::{
    bytes_eq, chars_of, dec, dec_signed, i64_value, lossy_text, lossy_utf8, parse_i64,
    parse_unsigned, push_dec, push_dec_signed, split, split_bytes, split_words, str_eq,
    string_views, unsigned_value, views, words,
};
use vstd::prelude::*;
use vstd::slice::slice_subrange;
use vstd::utf8::encode_utf8;

verus! {

/// Times in nanoseconds.
pub const START_WAIT_TIMEOUT: u64 = 10_000_000_000;
pub const STOP_WAIT_TIMEOUT: u64 = 5_000_000_000;
pub const STOP_POLL_INITIAL: u64 = 20_000_000;
pub const STOP_POLL_MAX: u64 = 250_000_000;

pub const READY_SIGNAL_ENV: &'static str = "ADDRSYNCD_READY_FD";
pub const READY_SIGNAL_BYTE: u8 = 1;

/// A daemon that was found.
#[derive(Debug, Clone, Copy, PartialEq, Eq, Structural)]
pub struct DaemonProcess {
    pub pid: i32,
    pub start_ticks: Option<u64>,
}

// ---------------------------------------------------------------------------
// Readiness
// ---------------------------------------------------------------------------

/// The descriptor that a text names.
pub open spec fn ready_fd(raw: Seq<char>) -> Option<int> {
    match i64_value(raw) {
        Some(v) => if 0 <= v <= i32::MAX {
            Some(v)
        } else {
            None
        },
        None => None,
    }
}

/// Reads the descriptor on which readiness is to be reported.
pub fn parse_ready_fd(raw: &str) -> (r: Option<i32>)
    ensures
        match r {
            Some(fd) => ready_fd(raw@) == Some(fd as int),
            None => ready_fd(raw@) is None,
        },
{
    let chars = chars_of(raw);
    match parse_i64(chars.as_slice()) {
        Some(v) => if 0 <= v && v <= 0x7FFF_FFFF {
            Some(v as i32)
        } else {
            None
        },
        None => None,
    }
}

/// What a read of the readiness pipe means.
pub enum ReadyOutcome {
    /// The daemon is ready.
    Ready,
    /// Nothing was read: try again.
    Retry,
    Failed(AppError),
}

/// Reads the return value of `read` on the readiness pipe, the byte that was read, and the error
/// where the read failed.
pub fn ready_outcome(rc: i64, byte: u8, err: IoError) -> (r: ReadyOutcome)
    requires
        rc <= 1,
    ensures
        match r {
            ReadyOutcome::Ready => rc == 1 && byte == READY_SIGNAL_BYTE,
            ReadyOutcome::Retry => rc < 0 && (err.raw_os_error == Some(EINTR) || err.raw_os_error
                == Some(EAGAIN)),
            ReadyOutcome::Failed(e) => if rc == 1 {
                byte != READY_SIGNAL_BYTE && e@ == ErrorView::Message(
                    "invalid ready signal byte: "@ + dec(byte as nat),
                )
            } else if rc == 0 {
                e@ == ErrorView::Message("ready pipe closed before daemon signaled ready"@)
            } else {
                err.raw_os_error != Some(EINTR) && err.raw_os_error != Some(EAGAIN) && e@
                    == ErrorView::Io(err@)
            },
        },
{
    if rc == 1 {
        if byte == READY_SIGNAL_BYTE {
            return ReadyOutcome::Ready;
        }
        let mut s = String::new();
        s.append("invalid ready signal byte: ");
        push_dec(&mut s, byte as u128);
        assert(s@ =~= "invalid ready signal byte: "@ + dec(byte as nat));
        return ReadyOutcome::Failed(AppError::Message(s));
    }
    if rc == 0 {
        return ReadyOutcome::Failed(
            AppError::message("ready pipe closed before daemon signaled ready"),
        );
    }
    if let Some(code) = err.raw_os_error {
        if code == EINTR || code == EAGAIN {
            return ReadyOutcome::Retry;
        }
    }
    ReadyOutcome::Failed(AppError::Io(err))
}

// ---------------------------------------------------------------------------
// Finding a daemon
// ---------------------------------------------------------------------------

/// The process that an entry of the process list names, where it can be another daemon.
pub open spec fn candidate(raw: Seq<char>, self_pid: i32) -> Option<int> {
    match i64_value(raw) {
        Some(v) => if 1 < v <= i32::MAX && v != self_pid {
            Some(v)
        } else {
            None
        },
        None => None,
    }
}

/// The process that an entry of the process list names, where it can be another daemon.
pub fn candidate_pid(raw: &str, self_pid: i32) -> (r: Option<i32>)
    ensures
        match r {
            Some(pid) => candidate(raw@, self_pid) == Some(pid as int),
            None => candidate(raw@, self_pid) is None,
        },
{
    let chars = chars_of(raw);
    match parse_i64(chars.as_slice()) {
        Some(v) => if 1 < v && v <= 0x7FFF_FFFF && v != self_pid as i64 {
            Some(v as i32)
        } else {
            None
        },
        None => None,
    }
}

/// The texts of the pieces that are not empty, in order.
pub open spec fn texts_of(pieces: Seq<Seq<u8>>) -> Seq<Seq<char>>
    decreases pieces.len(),
{
    if pieces.len() == 0 {
        Seq::empty()
    } else if pieces.last().len() == 0 {
        texts_of(pieces.drop_last())
    } else {
        texts_of(pieces.drop_last()).push(lossy_utf8(pieces.last()))
    }
}

/// Reads the arguments of a process as the system lists them: each ends with a zero byte. `None`
/// where there are none.
pub fn read_cmdline_args(cmdline: &[u8]) -> (r: Option<Vec<String>>)
    ensures
        match r {
            Some(args) => string_views(args@) == texts_of(split(cmdline@, 0u8)) && args@.len() > 0,
            None => texts_of(split(cmdline@, 0u8)).len() == 0,
        },
{
    let pieces = split_bytes(cmdline, 0);
    let ghost all = views(pieces@);
    let mut args: Vec<String> = Vec::new();
    assert(all.subrange(0, 0) =~= Seq::<Seq<u8>>::empty());
    assert(string_views(args@) =~= Seq::<Seq<char>>::empty());
    for i in 0..pieces.len()
        invariant
            all == views(pieces@),
            string_views(args@) == texts_of(all.subrange(0, i as int)),
    {
        let piece = pieces[i];
        let ghost before = string_views(args@);
        proof {
            assert(all.subrange(0, i + 1).drop_last() =~= all.subrange(0, i as int));
            assert(all.subrange(0, i + 1).last() == piece@);
        }
        if piece.len() != 0 {
            let text = lossy_text(piece);
            args.push(text);
            assert(string_views(args@) =~= before.push(lossy_utf8(piece@)));
        }
    }
    assert(all.subrange(0, all.len() as int) =~= all);
    assert(string_views(args@).len() == args@.len());
    if args.len() == 0 {
        None
    } else {
        Some(args)
    }
}

/// Whether a name starts with that of this program.
pub open spec fn is_own_name(name: Seq<u8>) -> bool {
    let prefix = encode_utf8("addrsyncd"@);
    name.len() >= prefix.len() && name.subrange(0, prefix.len() as int) == prefix
}

/// Whether a program was started under a name that starts with that of this one. Directories in
/// front of the name do not count.
pub fn is_addrsyncd_argv0(argv0: &str) -> (r: bool)
    ensures
        r == (last_name(split(encode_utf8(argv0@), SLASH)) matches Some(name) && is_own_name(
            name,
        )),
{
    match file_name(argv0.as_bytes()) {
        None => false,
        Some(name) => {
            let prefix = "addrsyncd".as_bytes();
            name.len() >= prefix.len() && bytes_eq(slice_subrange(name, 0, prefix.len()), prefix)
        },
    }
}

/// The working directory that the arguments of a `run` name, from place `i` on; `None` where
/// they are not those of a `run`.
pub open spec fn run_dir(args: Seq<Seq<char>>, i: int, dir: Seq<u8>) -> Option<Seq<u8>>
    decreases args.len() - i,
{
    if i >= args.len() {
        None
    } else if args[i] == "-d"@ || args[i] == "--work-dir"@ {
        if i + 1 >= args.len() {
            None
        } else {
            run_dir(args, i + 2, encode_utf8(args[i + 1]))
        }
    } else if args[i] == "-c"@ || args[i] == "--config"@ {
        if i + 1 >= args.len() {
            None
        } else {
            run_dir(args, i + 2, dir)
        }
    } else if args[i] == "run"@ {
        if forall|j: int| i < j < args.len() ==> args[j] == "--daemon"@ {
            Some(dir)
        } else {
            None
        }
    } else {
        None
    }
}

/// Copies the bytes of a text.
fn text_bytes(s: &str) -> (r: Vec<u8>)
    ensures
        r@ == encode_utf8(s@),
{
    let mut out: Vec<u8> = Vec::new();
    out.extend_from_slice(s.as_bytes());
    assert(out@ =~= encode_utf8(s@));
    out
}

/// Whether all arguments from place `i` on are the flag of `run`.
fn only_daemon_flags(args: &[String], i: usize) -> (r: bool)
    ensures
        r == forall|j: int| i <= j < args@.len() ==> string_views(args@)[j] == "--daemon"@,
{
    let mut at: usize = i;
    while at < args.len()
        invariant
            i <= at,
            forall|j: int| i <= j < at && j < args@.len() ==> string_views(args@)[j] == "--daemon"@,
        decreases args@.len() - at,
    {
        if !str_eq(args[at].as_str(), "--daemon") {
            assert(string_views(args@)[at as int] != "--daemon"@);
            return false;
        }
        at = at + 1;
    }
    true
}

/// The working directory as the arguments of a `run` name it.
pub fn raw_run_dir(args: &[String]) -> (r: Option<Vec<u8>>)
    ensures
        match r {
            Some(dir) => run_dir(string_views(args@), 1, encode_utf8("."@)) == Some(dir@),
            None => run_dir(string_views(args@), 1, encode_utf8("."@)) is None,
        },
{
    let ghost all = string_views(args@);
    let ghost start = run_dir(all, 1, encode_utf8("."@));
    let mut dir = text_bytes(".");
    let mut i: usize = 1;
    let n: usize = args.len();
    while i < n
        invariant
            n == args@.len(),
            all == string_views(args@),
            start == run_dir(all, 1, encode_utf8("."@)),
            start == run_dir(all, i as int, dir@),
        decreases n - i,
    {
        let arg = args[i].as_str();
        assert(arg@ == all[i as int]);
        if str_eq(arg, "-d") || str_eq(arg, "--work-dir") {
            if n - i < 2 {
                return None;
            }
            dir = text_bytes(args[i + 1].as_str());
            assert(dir@ == encode_utf8(all[i + 1]));
            i = i + 2;
        } else if str_eq(arg, "-c") || str_eq(arg, "--config") {
            if n - i < 2 {
                return None;
            }
            i = i + 2;
        } else if str_eq(arg, "run") {
            if only_daemon_flags(args, i + 1) {
                return Some(dir);
            } else {
                proof {
                    let j = choose|j: int|
                        i + 1 <= j < args@.len() && string_views(args@)[j] != "--daemon"@;
                    assert(all[j] != "--daemon"@);
                }
                return None;
            }
        } else {
            return None;
        }
    }
    None
}

/// The working directory of a daemon, seen from the directory it was started in where that is
/// known and needed.
pub open spec fn daemon_dir(raw: Seq<u8>, cwd: Option<Seq<u8>>) -> Option<Seq<u8>> {
    if absolute(raw) {
        Some(normalized(raw))
    } else {
        match cwd {
            Some(base) => Some(normalized(joined_path(base, raw))),
            None => None,
        }
    }
}

/// The bytes of an optional path.
pub open spec fn path_view(p: Option<&[u8]>) -> Option<Seq<u8>> {
    match p {
        Some(p) => Some(p@),
        None => None,
    }
}

/// The working directory of a daemon, seen from the directory it was started in.
pub fn resolve_daemon_work_dir(raw: &[u8], cwd: Option<&[u8]>) -> (r: Option<Vec<u8>>)
    ensures
        match r {
            Some(dir) => daemon_dir(raw@, path_view(cwd)) == Some(dir@),
            None => daemon_dir(raw@, path_view(cwd)) is None,
        },
{
    if is_absolute(raw) {
        return Some(normalize_path(raw));
    }
    match cwd {
        Some(base) => {
            let joined = join_path(base, raw);
            Some(normalize_path(joined.as_slice()))
        },
        None => None,
    }
}

/// The working directory of the daemon that was started with the arguments.
pub open spec fn run_work_dir(args: Seq<Seq<char>>, cwd: Option<Seq<u8>>) -> Option<Seq<u8>> {
    match run_dir(args, 1, encode_utf8("."@)) {
        Some(raw) => daemon_dir(raw, cwd),
        None => None,
    }
}

/// The working directory of the daemon that was started with the arguments in the directory
/// `cwd`; `None` where they are not those of a `run`.
pub fn parse_run_work_dir(args: &[String], cwd: Option<&[u8]>) -> (r: Option<Vec<u8>>)
    ensures
        match r {
            Some(dir) => run_work_dir(string_views(args@), path_view(cwd)) == Some(dir@),
            None => run_work_dir(string_views(args@), path_view(cwd)) is None,
        },
{
    match raw_run_dir(args) {
        Some(raw) => resolve_daemon_work_dir(raw.as_slice(), cwd),
        None => None,
    }
}

/// Whether a process is a daemon of this program that works in a directory.
pub fn is_daemon_of(args: &[String], cwd: Option<&[u8]>, target: &[u8]) -> (r: bool)
    ensures
        r == (args@.len() > 0 && (last_name(split(encode_utf8(args@[0]@), SLASH)) matches Some(
            name,
        ) && is_own_name(name)) && run_work_dir(string_views(args@), path_view(cwd)) == Some(
            target@,
        )),
{
    if args.len() == 0 || !is_addrsyncd_argv0(args[0].as_str()) {
        return false;
    }
    match parse_run_work_dir(args, cwd) {
        Some(dir) => bytes_eq(dir.as_slice(), target),
        None => false,
    }
}

/// The arguments that a daemon is started with in the background.
pub open spec fn background_list(config_path: Seq<u8>, work_dir: Seq<u8>) -> Seq<Seq<u8>> {
    seq![
        encode_utf8("-c"@),
        config_path,
        encode_utf8("-d"@),
        work_dir,
        encode_utf8("run"@),
    ]
}

/// The arguments that a daemon is started with in the background.
pub fn background_args(config_path: &[u8], work_dir: &[u8]) -> (r: Vec<Vec<u8>>)
    ensures
        r@.len() == 5,
        forall|i: int|
            0 <= i < 5 ==> (#[trigger] r@[i])@ == background_list(config_path@, work_dir@)[i],
{
    let mut config: Vec<u8> = Vec::new();
    config.extend_from_slice(config_path);
    assert(config@ =~= config_path@);
    let mut dir: Vec<u8> = Vec::new();
    dir.extend_from_slice(work_dir);
    assert(dir@ =~= work_dir@);
    vec![text_bytes("-c"), config, text_bytes("-d"), dir, text_bytes("run")]
}

/// The arguments of a daemon that was started in the background, with the name of the program
/// before them.
pub open spec fn background_texts(argv0: Seq<char>, config: Seq<char>, dir: Seq<char>) -> Seq<
    Seq<char>,
> {
    seq![argv0, "-c"@, config, "-d"@, dir, "run"@]
}

/// A daemon that was started in the background is found again: whatever its program is called
/// and wherever it was started, its arguments name the working directory that it was started
/// with.
pub proof fn background_daemon_is_found(
    argv0: Seq<char>,
    config: Seq<char>,
    dir: Seq<char>,
    cwd: Option<Seq<u8>>,
)
    requires
        absolute(encode_utf8(dir)),
    ensures
        forall|i: int|
            1 <= i < 6 ==> encode_utf8(#[trigger] background_texts(argv0, config, dir)[i])
                == background_list(encode_utf8(config), encode_utf8(dir))[i - 1],
        run_work_dir(background_texts(argv0, config, dir), cwd) == Some(
            normalized(encode_utf8(dir)),
        ),
{
    let args = background_texts(argv0, config, dir);
    reveal_strlit("-c");
    reveal_strlit("-d");
    reveal_strlit("--work-dir");
    reveal_strlit("--config");
    reveal_strlit("run");
    assert("-c"@[1] == 'c' && "-d"@[1] == 'd');
    assert("-c"@ != "-d"@);
    assert("run"@.len() == 3 && "-d"@.len() == 2 && "-c"@.len() == 2);
    assert("--work-dir"@.len() == 10 && "--config"@.len() == 8);
    assert(args.len() == 6);
    assert(args[1] == "-c"@ && args[3] == "-d"@ && args[4] == dir && args[5] == "run"@);
    assert(run_dir(args, 5, encode_utf8(dir)) == Some(encode_utf8(dir)));
    assert(run_dir(args, 3, encode_utf8("."@)) == run_dir(args, 5, encode_utf8(dir)));
    assert(run_dir(args, 1, encode_utf8("."@)) == run_dir(args, 3, encode_utf8("."@)));
}

// ---------------------------------------------------------------------------
// Process times
// ---------------------------------------------------------------------------

/// The last place at which a closing bracket is followed by a blank, below `n`.
pub open spec fn last_bracket(s: Seq<char>, n: int) -> Option<int>
    decreases n,
{
    if n <= 0 {
        None
    } else if n < s.len() && s[n - 1] == ')' && s[n] == ' ' {
        Some(n - 1)
    } else {
        last_bracket(s, n - 1)
    }
}

/// When a process was started, as its status line says: the twentieth word after the name of the
/// program, which stands in brackets and may itself hold brackets and blanks.
pub open spec fn start_ticks(raw: Seq<char>) -> Option<nat> {
    match last_bracket(raw, raw.len() as int) {
        None => None,
        Some(k) => {
            let fields = words(raw.subrange(k + 2, raw.len() as int));
            if fields.len() > 19 {
                unsigned_value(fields[19], 10, u64::MAX as nat)
            } else {
                None
            }
        },
    }
}

/// A bracket that was found has a blank after it.
proof fn lemma_last_bracket(s: Seq<char>, n: int)
    requires
        n <= s.len(),
    ensures
        last_bracket(s, n) matches Some(k) ==> 0 <= k && k + 2 <= s.len(),
    decreases n,
{
    if n > 0 {
        lemma_last_bracket(s, n - 1);
    }
}

/// Reads when a process was started from its status line.
pub fn parse_proc_stat_start_ticks(raw: &str) -> (r: Option<u64>)
    ensures
        match r {
            Some(ticks) => start_ticks(raw@) == Some(ticks as nat),
            None => start_ticks(raw@) is None,
        },
{
    let chars = chars_of(raw);
    let len: usize = chars.len();
    let mut n: usize = len;
    while n > 0 && !(n < len && chars[n - 1] == ')' && chars[n] == ' ')
        invariant
            n <= len,
            len == chars@.len(),
            last_bracket(chars@, len as int) == last_bracket(chars@, n as int),
        decreases n,
    {
        n = n - 1;
    }
    if n == 0 {
        return None;
    }
    assert(last_bracket(chars@, len as int) == Some(n - 1));
    let fields = split_words(slice_subrange(chars.as_slice(), n + 1, len));
    assert(views(fields@).len() == fields@.len());
    if fields.len() <= 19 {
        return None;
    }
    assert(views(fields@)[19] == fields@[19]@);
    parse_unsigned(fields[19], 10, 0xFFFF_FFFF_FFFF_FFFF)
}

/// Whether a process is still the one that was found, given when the process that has its number
/// now was started, if there is one.
pub fn is_same_process_alive(current_ticks: Option<u64>, expected: Option<u64>) -> (r: bool)
    ensures
        r == (current_ticks is Some && (expected is None || current_ticks == expected)),
        current_ticks is None ==> !r,
        r && expected is Some ==> current_ticks == expected,
        current_ticks is Some && current_ticks == expected ==> r,
        current_ticks is Some && expected is None ==> r,
{
    match (current_ticks, expected) {
        (None, _) => false,
        (Some(_), None) => true,
        (Some(current), Some(expected)) => current == expected,
    }
}

// ---------------------------------------------------------------------------
// Stopping
// ---------------------------------------------------------------------------

/// Whether an error says that a process does not run.
pub fn is_not_running_error(err: &AppError) -> (r: bool)
    ensures
        r == (err@ matches ErrorView::Io(e) && e.raw_os_error == Some(ESRCH)),
{
    match err {
        AppError::Io(e) => match e.raw_os_error {
            Some(code) => code == ESRCH,
            None => false,
        },
        _ => false,
    }
}

/// The pause after a pause: twice as long, up to the limit.
pub fn next_poll_interval(interval: u64) -> (r: u64)
    ensures
        r == (if interval * 2 < STOP_POLL_MAX {
            (interval * 2) as u64
        } else {
            STOP_POLL_MAX
        }),
        r <= 250_000_000,
        interval <= 125_000_000 ==> r == 2 * interval,
        interval > 125_000_000 ==> r == 250_000_000,
{
    if interval < STOP_POLL_MAX / 2 {
        interval * 2
    } else {
        STOP_POLL_MAX
    }
}

/// How the wait for a daemon to stop goes on.
#[derive(Debug, Clone, Copy, PartialEq, Eq, Structural)]
pub enum StopStep {
    Stopped,
    /// Look again after a pause.
    Wait,
    TimedOut,
}

/// Decides how the wait for a daemon to stop goes on.
pub fn stop_step(now: u64, deadline: u128, alive: bool) -> (r: StopStep)
    ensures
        r == (if now >= deadline {
            StopStep::TimedOut
        } else if alive {
            StopStep::Wait
        } else {
            StopStep::Stopped
        }),
        r == StopStep::TimedOut <==> now >= deadline,
        r == StopStep::Wait <==> now < deadline && alive,
{
    if now as u128 >= deadline {
        StopStep::TimedOut
    } else if alive {
        StopStep::Wait
    } else {
        StopStep::Stopped
    }
}

// ---------------------------------------------------------------------------
// What is printed
// ---------------------------------------------------------------------------

/// What is said where no daemon runs.
pub open spec fn not_running_text(relative_hint: bool) -> Seq<char> {
    if relative_hint {
        "addrsyncd not running (tip: use absolute --work-dir)"@
    } else {
        "addrsyncd not running"@
    }
}

/// What is said where no daemon runs.
pub fn not_running_message(relative_hint: bool) -> (r: String)
    ensures
        r@ == not_running_text(relative_hint),
{
    if relative_hint {
        "addrsyncd not running (tip: use absolute --work-dir)".to_owned()
    } else {
        "addrsyncd not running".to_owned()
    }
}

/// A text with the number of a process after it.
pub fn pid_line(before: &str, pid: i32) -> (r: String)
    ensures
        r@ == before@ + dec_signed(pid as int),
{
    let mut s = before.to_owned();
    push_dec_signed(&mut s, pid as i64);
    s
}

/// What `status` prints.
pub open spec fn status_text(config_error: Option<Seq<char>>, pid: Option<i32>) -> Seq<char> {
    match config_error {
        Some(e) => "stopped(config invalid: "@ + e + ")"@,
        None => match pid {
            Some(pid) => "running pid="@ + dec_signed(pid as int),
            None => "stopped"@,
        },
    }
}

/// The view of an optional text.
pub open spec fn opt_text(s: Option<&str>) -> Option<Seq<char>> {
    match s {
        Some(s) => Some(s@),
        None => None,
    }
}

/// What `status` prints, given the error of the configuration, if any, and the daemon that runs,
/// if any.
pub fn status_line(config_error: Option<&str>, pid: Option<i32>) -> (r: String)
    ensures
        r@ == status_text(opt_text(config_error), pid),
{
    match config_error {
        Some(e) => {
            let mut s = String::new();
            s.append("stopped(config invalid: ");
            s.append(e);
            s.append(")");
            assert(s@ =~= "stopped(config invalid: "@ + e@ + ")"@);
            s
        },
        None => match pid {
            Some(pid) => pid_line("running pid=", pid),
            None => "stopped".to_owned(),
        },
    }
}

} // verus!
