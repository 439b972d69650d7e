//! What the arguments of a command line ask for.
use crate::cli::{
    action_of, cleanup_args, family_of, globals, no_pbr_options, parsed, pbr_args, pbr_options,
    pbr_request, run_args, subcommand, u32_of, CleanupMode, Command, Globals, ParsedView, PbrAction,
    PbrFamily, PbrOptions, PbrScan, SubView,
};
use crate::control::{
    candidate, daemon_dir, is_own_name, last_bracket, ready_fd, run_dir, run_work_dir, start_ticks,
    texts_of,
};
use crate::laws::texts::numbers_are_read_within_limits;
use crate::path::{absolute, joined_path, last_name, normalized};
use crate::text::{dec_signed, lossy_utf8, unsigned_value, words};
use vstd::prelude::*;
use vstd::utf8::{encode_utf8, encode_utf8_decode_utf8};

verus! {

// ---------------------------------------------------------------------------
// Words
// ---------------------------------------------------------------------------

/// Different words are different arguments.
proof fn lemma_apart(a: Seq<char>, b: Seq<char>)
    requires
        a != b,
    ensures
        encode_utf8(a) != encode_utf8(b),
{
    encode_utf8_decode_utf8(a);
    encode_utf8_decode_utf8(b);
}

/// The options before the command differ from each other.
#[verifier::rlimit(40)]
proof fn lemma_global_words()
    ensures
        ({
            let c = encode_utf8("-c"@);
            let config = encode_utf8("--config"@);
            let d = encode_utf8("-d"@);
            let dir = encode_utf8("--work-dir"@);
            let h = encode_utf8("-h"@);
            let help = encode_utf8("--help"@);
            let v = encode_utf8("-v"@);
            let version = encode_utf8("--version"@);
            &&& c != d && c != dir && c != h && c != help && c != v && c != version
            &&& config != d && config != dir && config != h && config != help && config != v
                && config != version
            &&& d != h && d != help && d != v && d != version
            &&& dir != h && dir != help && dir != v && dir != version
            &&& h != v && h != version && help != v && help != version
        }),
{
    reveal_strlit("-c");
    reveal_strlit("--config");
    reveal_strlit("-d");
    reveal_strlit("--work-dir");
    reveal_strlit("-h");
    reveal_strlit("--help");
    reveal_strlit("-v");
    reveal_strlit("--version");
    assert("-c"@[1] == 'c' && "-d"@[1] == 'd' && "-h"@[1] == 'h' && "-v"@[1] == 'v');
    assert("--config"@[2] == 'c' && "--work-dir"@[2] == 'w' && "--help"@[2] == 'h'
        && "--version"@[2] == 'v');
    assert("--config"@[1] == '-' && "--work-dir"@[1] == '-' && "--help"@[1] == '-'
        && "--version"@[1] == '-');
    lemma_apart("-c"@, "-d"@);
    lemma_apart("-c"@, "--work-dir"@);
    lemma_apart("-c"@, "-h"@);
    lemma_apart("-c"@, "--help"@);
    lemma_apart("-c"@, "-v"@);
    lemma_apart("-c"@, "--version"@);
    lemma_apart("--config"@, "-d"@);
    lemma_apart("--config"@, "--work-dir"@);
    lemma_apart("--config"@, "-h"@);
    lemma_apart("--config"@, "--help"@);
    lemma_apart("--config"@, "-v"@);
    lemma_apart("--config"@, "--version"@);
    lemma_apart("-d"@, "-h"@);
    lemma_apart("-d"@, "--help"@);
    lemma_apart("-d"@, "-v"@);
    lemma_apart("-d"@, "--version"@);
    lemma_apart("--work-dir"@, "-h"@);
    lemma_apart("--work-dir"@, "--help"@);
    lemma_apart("--work-dir"@, "-v"@);
    lemma_apart("--work-dir"@, "--version"@);
    lemma_apart("-h"@, "-v"@);
    lemma_apart("-h"@, "--version"@);
    lemma_apart("--help"@, "-v"@);
    lemma_apart("--help"@, "--version"@);
}

/// The commands differ from each other.
proof fn lemma_command_words()
    ensures
        ({
            let run = encode_utf8("run"@);
            let stop = encode_utf8("stop"@);
            let resync = encode_utf8("resync"@);
            let cleanup = encode_utf8("cleanup"@);
            let pbr = encode_utf8("pbr"@);
            let status = encode_utf8("status"@);
            &&& run != stop && run != resync && run != cleanup && run != pbr && run != status
            &&& stop != resync && stop != cleanup && stop != pbr && stop != status
            &&& resync != cleanup && resync != pbr && resync != status
            &&& cleanup != pbr && cleanup != status && pbr != status
        }),
{
    reveal_strlit("run");
    reveal_strlit("stop");
    reveal_strlit("resync");
    reveal_strlit("cleanup");
    reveal_strlit("pbr");
    reveal_strlit("status");
    assert("run"@[0] == 'r' && "pbr"@[0] == 'p' && "stop"@[0] == 's');
    lemma_apart("run"@, "stop"@);
    lemma_apart("run"@, "resync"@);
    lemma_apart("run"@, "cleanup"@);
    lemma_apart("run"@, "pbr"@);
    lemma_apart("run"@, "status"@);
    lemma_apart("stop"@, "resync"@);
    lemma_apart("stop"@, "cleanup"@);
    lemma_apart("stop"@, "pbr"@);
    lemma_apart("stop"@, "status"@);
    assert("resync"@[0] == 'r' && "status"@[0] == 's');
    lemma_apart("resync"@, "cleanup"@);
    lemma_apart("resync"@, "pbr"@);
    lemma_apart("resync"@, "status"@);
    lemma_apart("cleanup"@, "pbr"@);
    lemma_apart("cleanup"@, "status"@);
    lemma_apart("pbr"@, "status"@);
}

// ---------------------------------------------------------------------------
// Options before the command
// ---------------------------------------------------------------------------

/// Whether an argument is an option that stands before the command.
pub open spec fn is_global_option(arg: Seq<u8>) -> bool {
    ||| arg == encode_utf8("-c"@)
    ||| arg == encode_utf8("--config"@)
    ||| arg == encode_utf8("-d"@)
    ||| arg == encode_utf8("--work-dir"@)
    ||| arg == encode_utf8("-h"@)
    ||| arg == encode_utf8("--help"@)
    ||| arg == encode_utf8("-v"@)
    ||| arg == encode_utf8("--version"@)
}

/// Before the command, the short and the long option for the configuration file take the next
/// argument as the file, those for the working directory take it as the directory, and a value
/// given later replaces one given before; those for help and version end the search; and the first
/// argument that is none of them is the command.
pub proof fn options_before_the_command_take_their_values(
    args: Seq<Seq<u8>>,
    i: int,
    config: Seq<u8>,
    work_dir: Seq<u8>,
)
    requires
        0 <= i,
    ensures
        i >= args.len() ==> globals(args, i, config, work_dir) == (Globals::Done {
            at: i,
            config,
            work_dir,
        }),
        i + 1 < args.len() && (args[i] == encode_utf8("-c"@) || args[i] == encode_utf8(
            "--config"@,
        )) ==> globals(args, i, config, work_dir) == globals(args, i + 2, args[i + 1], work_dir),
        i + 1 < args.len() && (args[i] == encode_utf8("-d"@) || args[i] == encode_utf8(
            "--work-dir"@,
        )) ==> globals(args, i, config, work_dir) == globals(args, i + 2, config, args[i + 1]),
        i + 1 == args.len() && (args[i] == encode_utf8("-c"@) || args[i] == encode_utf8(
            "--config"@,
        ) || args[i] == encode_utf8("-d"@) || args[i] == encode_utf8("--work-dir"@)) ==> globals(
            args,
            i,
            config,
            work_dir,
        ) is Fail,
        i < args.len() && (args[i] == encode_utf8("-h"@) || args[i] == encode_utf8("--help"@))
            ==> globals(args, i, config, work_dir) == Globals::Help,
        i < args.len() && (args[i] == encode_utf8("-v"@) || args[i] == encode_utf8("--version"@))
            ==> globals(args, i, config, work_dir) == Globals::Version,
        i < args.len() && !is_global_option(args[i]) ==> globals(args, i, config, work_dir) == (
        Globals::Done { at: i, config, work_dir }),
{
    lemma_global_words();
}

/// A command line asks for what its command asks for, with the file and the directory that were
/// given before it, or else with `addrsyncd.toml` in the current directory. A command that takes no
/// arguments is refused with one.
pub proof fn command_follows_its_options(args: Seq<Seq<u8>>, at: int, config: Seq<u8>, dir: Seq<u8>)
    requires
        globals(args, 1, encode_utf8("addrsyncd.toml"@), encode_utf8("."@)) == (Globals::Done {
            at,
            config,
            work_dir: dir,
        }),
        at >= 1,
    ensures
        at >= args.len() ==> parsed(args) is Fail,
        at < args.len() ==> {
            &&& args[at] == encode_utf8("stop"@) ==> (if at + 1 == args.len() {
                parsed(args) == (ParsedView::Cli { config, work_dir: dir, command: Command::Stop })
            } else {
                parsed(args) is Fail
            })
            &&& args[at] == encode_utf8("resync"@) ==> (if at + 1 == args.len() {
                parsed(args) == (ParsedView::Cli {
                    config,
                    work_dir: dir,
                    command: Command::Resync,
                })
            } else {
                parsed(args) is Fail
            })
            &&& args[at] == encode_utf8("status"@) ==> (if at + 1 == args.len() {
                parsed(args) == (ParsedView::Cli {
                    config,
                    work_dir: dir,
                    command: Command::Status,
                })
            } else {
                parsed(args) is Fail
            })
            &&& args[at] == encode_utf8("run"@) ==> subcommand(args, at).0 == run_args(
                args,
                at + 1,
                false,
            )
            &&& args[at] == encode_utf8("cleanup"@) ==> subcommand(args, at).0 == cleanup_args(
                args,
                at + 1,
                CleanupMode::Dump,
            )
            &&& args[at] == encode_utf8("pbr"@) ==> subcommand(args, at).0 == pbr_args(args, at + 1)
            &&& subcommand(args, at).0 matches SubView::Command(command) ==> parsed(args) == (
            ParsedView::Cli { config, work_dir: dir, command })
            &&& subcommand(args, at).0 is Fail ==> parsed(args) is Fail
            &&& subcommand(args, at).0 is Help ==> parsed(args) is Help
            &&& args[at] != encode_utf8("run"@) && args[at] != encode_utf8("stop"@) && args[at]
                != encode_utf8("resync"@) && args[at] != encode_utf8("cleanup"@) && args[at]
                != encode_utf8("pbr"@) && args[at] != encode_utf8("status"@) ==> parsed(
                args,
            ) is Fail
        },
{
    lemma_command_words();
}

// ---------------------------------------------------------------------------
// Commands
// ---------------------------------------------------------------------------

/// The arguments of the command that runs the daemon are accepted if and only if each asks for the
/// background, and it runs there if and only if there is one.
pub proof fn daemon_runs_in_background_if_asked(args: Seq<Seq<u8>>, i: int, daemon: bool)
    requires
        0 <= i <= args.len(),
    ensures
        run_args(args, i, daemon) is Command <==> (forall|j: int|
            i <= j < args.len() ==> #[trigger] args[j] == encode_utf8("--daemon"@)),
        run_args(args, i, daemon) matches SubView::Command(c) ==> c == (Command::Run {
            daemon: daemon || i < args.len(),
        }),
    decreases args.len() - i,
{
    reveal_strlit("--daemon");
    reveal_strlit("-h");
    reveal_strlit("--help");
    assert("--daemon"@[2] == 'd' && "--help"@[2] == 'h');
    lemma_apart("--daemon"@, "-h"@);
    lemma_apart("--daemon"@, "--help"@);
    if i < args.len() {
        daemon_runs_in_background_if_asked(args, i + 1, true);
    }
}

/// A cleanup is of the rules that the kernel lists, unless its mode says otherwise; the mode that
/// is given last counts; and a mode without a word, or with an unknown one, is refused.
pub proof fn cleanup_mode_is_the_last_one(args: Seq<Seq<u8>>, i: int, mode: CleanupMode)
    requires
        0 <= i <= args.len(),
    ensures
        i == args.len() ==> cleanup_args(args, i, mode) == SubView::Command(
            Command::Cleanup { mode },
        ),
        i < args.len() && args[i] == encode_utf8("--mode"@) ==> {
            &&& i + 1 == args.len() ==> cleanup_args(args, i, mode) is Fail
            &&& i + 1 < args.len() && args[i + 1] == encode_utf8("tracked"@) ==> cleanup_args(
                args,
                i,
                mode,
            ) == cleanup_args(args, i + 2, CleanupMode::Owned)
            &&& i + 1 < args.len() && args[i + 1] == encode_utf8("dump"@) ==> cleanup_args(
                args,
                i,
                mode,
            ) == cleanup_args(args, i + 2, CleanupMode::Dump)
            &&& i + 1 < args.len() && args[i + 1] != encode_utf8("tracked"@) && args[i + 1]
                != encode_utf8("dump"@) ==> cleanup_args(args, i, mode) is Fail
        },
        i < args.len() && args[i] != encode_utf8("--mode"@) && args[i] != encode_utf8("-h"@)
            && args[i] != encode_utf8("--help"@) ==> cleanup_args(args, i, mode) is Fail,
{
    reveal_strlit("tracked");
    reveal_strlit("dump");
    assert("tracked"@[0] == 't' && "dump"@[0] == 'd');
    lemma_apart("tracked"@, "dump"@);
}

/// The words for the options of a request differ from each other.
proof fn lemma_request_words()
    ensures
        ({
            let family = encode_utf8("--family"@);
            let mark = encode_utf8("--mark"@);
            let mask = encode_utf8("--mask"@);
            let table = encode_utf8("--table"@);
            let pref = encode_utf8("--pref"@);
            &&& family != mark && family != mask && family != table && family != pref
            &&& mark != mask && mark != table && mark != pref
            &&& mask != table && mask != pref && table != pref
        }),
{
    reveal_strlit("--family");
    reveal_strlit("--mark");
    reveal_strlit("--mask");
    reveal_strlit("--table");
    reveal_strlit("--pref");
    assert("--mark"@[4] == 'r' && "--mask"@[4] == 's');
    assert("--family"@[2] == 'f' && "--mark"@[2] == 'm' && "--mask"@[2] == 'm' && "--table"@[2]
        == 't' && "--pref"@[2] == 'p');
    lemma_apart("--family"@, "--mark"@);
    lemma_apart("--family"@, "--mask"@);
    lemma_apart("--family"@, "--table"@);
    lemma_apart("--family"@, "--pref"@);
    lemma_apart("--mark"@, "--mask"@);
    lemma_apart("--mark"@, "--table"@);
    lemma_apart("--mark"@, "--pref"@);
    lemma_apart("--mask"@, "--table"@);
    lemma_apart("--mask"@, "--pref"@);
    lemma_apart("--table"@, "--pref"@);
}

/// Each option of a request sets what it names to its value, in any order, and nothing else; a value
/// given later replaces one given before.
#[verifier::rlimit(40)]
pub proof fn request_options_set_what_they_name(
    args: Seq<Seq<u8>>,
    i: int,
    opts: PbrOptions,
    f: PbrFamily,
    v: u32,
)
    requires
        0 <= i,
        i + 1 < args.len(),
    ensures
        args[i] == encode_utf8("--family"@) && family_of(args[i + 1]) == Some(f) ==> pbr_options(
            args,
            i,
            opts,
        ) == pbr_options(args, i + 2, PbrOptions { family: Some(f), ..opts }),
        u32_of(lossy_utf8(args[i + 1])) == Some(v as nat) ==> {
            &&& args[i] == encode_utf8("--mark"@) ==> pbr_options(args, i, opts) == pbr_options(
                args,
                i + 2,
                PbrOptions { mark: Some(v), ..opts },
            )
            &&& args[i] == encode_utf8("--mask"@) ==> pbr_options(args, i, opts) == pbr_options(
                args,
                i + 2,
                PbrOptions { mask: Some(v), ..opts },
            )
            &&& args[i] == encode_utf8("--table"@) ==> pbr_options(args, i, opts) == pbr_options(
                args,
                i + 2,
                PbrOptions { table: Some(v), ..opts },
            )
            &&& args[i] == encode_utf8("--pref"@) ==> pbr_options(args, i, opts) == pbr_options(
                args,
                i + 2,
                PbrOptions { pref: Some(v), ..opts },
            )
        },
        u32_of(lossy_utf8(args[i + 1])) is None && (args[i] == encode_utf8("--mark"@) || args[i]
            == encode_utf8("--mask"@) || args[i] == encode_utf8("--table"@) || args[i]
            == encode_utf8("--pref"@)) ==> pbr_options(args, i, opts) is Fail,
        args[i] == encode_utf8("--family"@) && family_of(args[i + 1]) is None ==> pbr_options(
            args,
            i,
            opts,
        ) is Fail,
{
    lemma_request_words();
}

/// The options of a request end with the arguments; none is set at the start.
pub proof fn request_options_start_unset(args: Seq<Seq<u8>>, i: int, opts: PbrOptions)
    requires
        i >= args.len(),
    ensures
        pbr_options(args, i, opts) == PbrScan::Options(opts),
        no_pbr_options().family is None,
        no_pbr_options().mark is None,
        no_pbr_options().mask is None,
        no_pbr_options().table is None,
        no_pbr_options().pref is None,
{
}

/// A request is made if and only if everything is set, and the mask, the table and the priority are
/// not zero; it then holds what was set, each under its own name.
pub proof fn request_holds_what_was_set(action: PbrAction, opts: PbrOptions)
    ensures
        pbr_request(action, opts) is Command <==> opts.family is Some && opts.mark is Some
            && opts.mask is Some && opts.table is Some && opts.pref is Some && opts.mask != Some(
            0u32,
        ) && opts.table != Some(0u32) && opts.pref != Some(0u32),
        pbr_request(action, opts) is Command || pbr_request(action, opts) is Fail,
        pbr_request(action, opts) matches SubView::Command(c) ==> (c matches Command::Pbr {
            request,
        } && request.action == action && Some(request.family) == opts.family && Some(request.mark)
            == opts.mark && Some(request.mask) == opts.mask && Some(request.table) == opts.table
            && Some(request.pref) == opts.pref),
{
}

/// A request names what is to be done first, by its word, and its options after that.
pub proof fn request_names_its_action_first(args: Seq<Seq<u8>>, i: int, opts: PbrOptions)
    requires
        0 <= i < args.len(),
    ensures
        action_of(encode_utf8("apply"@)) == Some(PbrAction::Apply),
        action_of(encode_utf8("cleanup"@)) == Some(PbrAction::Cleanup),
        action_of(encode_utf8("status"@)) == Some(PbrAction::Status),
        action_of(args[i]) is None ==> !(pbr_args(args, i) is Command),
        pbr_args(args, args.len() as int) is Fail,
        action_of(args[i]) matches Some(action) ==> (pbr_options(args, i + 1, no_pbr_options())
            == PbrScan::Options(opts) ==> pbr_args(args, i) == pbr_request(action, opts)),
        action_of(args[i]) is Some && pbr_options(args, i + 1, no_pbr_options()) is Fail
            ==> pbr_args(args, i) is Fail,
{
    reveal_strlit("apply");
    reveal_strlit("cleanup");
    reveal_strlit("status");
    assert("apply"@[0] == 'a' && "cleanup"@[0] == 'c' && "status"@[0] == 's');
    lemma_apart("apply"@, "cleanup"@);
    lemma_apart("apply"@, "status"@);
    lemma_apart("cleanup"@, "status"@);
}

/// A family is named by its number or its word.
pub proof fn families_are_named(arg: Seq<u8>)
    ensures
        family_of(arg) == Some(PbrFamily::Ipv4) <==> arg == encode_utf8("4"@) || arg == encode_utf8(
            "ipv4"@,
        ),
        family_of(arg) == Some(PbrFamily::Ipv6) <==> arg == encode_utf8("6"@) || arg == encode_utf8(
            "ipv6"@,
        ),
{
    reveal_strlit("4");
    reveal_strlit("6");
    reveal_strlit("ipv4");
    reveal_strlit("ipv6");
    assert("4"@[0] == '4' && "6"@[0] == '6' && "ipv4"@[3] == '4' && "ipv6"@[3] == '6');
    lemma_apart("4"@, "6"@);
    lemma_apart("4"@, "ipv6"@);
    lemma_apart("ipv4"@, "6"@);
    lemma_apart("ipv4"@, "ipv6"@);
}

// ---------------------------------------------------------------------------
// Finding a daemon
// ---------------------------------------------------------------------------

/// A process counts as a candidate by its number in decimal: greater than one, within 32 bits, and
/// not the searching process itself. A descriptor is any number from zero within 32 bits.
pub proof fn process_numbers_are_positive(n: int, self_pid: i32)
    requires
        i64::MIN <= n <= i64::MAX,
    ensures
        candidate(dec_signed(n), self_pid) == (if n > 1 && n <= 0x7FFF_FFFF && n != self_pid {
            Some(n)
        } else {
            None
        }),
        ready_fd(dec_signed(n)) == (if 0 <= n <= 0x7FFF_FFFF {
            Some(n)
        } else {
            None
        }),
{
    numbers_are_read_within_limits(0, 0, n);
}

/// The arguments of a process are the pieces that are not empty, in order.
pub proof fn arguments_are_the_pieces(pieces: Seq<Seq<u8>>, piece: Seq<u8>)
    ensures
        texts_of(Seq::empty()).len() == 0,
        piece.len() == 0 ==> texts_of(pieces.push(piece)) == texts_of(pieces),
        piece.len() > 0 ==> texts_of(pieces.push(piece)) == texts_of(pieces).push(
            lossy_utf8(piece),
        ),
{
    assert(pieces.push(piece).drop_last() =~= pieces);
}

/// The working directory of a running daemon is the one given last before the command that runs it;
/// what follows that command may only ask for the background. A process with another command, or
/// with none, is no daemon.
pub proof fn running_daemon_names_its_directory(args: Seq<Seq<char>>, i: int, dir: Seq<u8>)
    requires
        0 <= i,
    ensures
        i >= args.len() ==> run_dir(args, i, dir) is None,
        i + 1 < args.len() && (args[i] == "-d"@ || args[i] == "--work-dir"@) ==> run_dir(
            args,
            i,
            dir,
        ) == run_dir(args, i + 2, encode_utf8(args[i + 1])),
        i + 1 < args.len() && (args[i] == "-c"@ || args[i] == "--config"@) ==> run_dir(
            args,
            i,
            dir,
        ) == run_dir(args, i + 2, dir),
        i < args.len() && args[i] == "run"@ ==> run_dir(args, i, dir) == (if forall|j: int|
            i < j < args.len() ==> args[j] == "--daemon"@ {
            Some(dir)
        } else {
            None
        }),
        i < args.len() && args[i] != "run"@ && args[i] != "-d"@ && args[i] != "--work-dir"@
            && args[i] != "-c"@ && args[i] != "--config"@ ==> run_dir(args, i, dir) is None,
{
    reveal_strlit("-c");
    reveal_strlit("--config");
    reveal_strlit("-d");
    reveal_strlit("--work-dir");
    reveal_strlit("run");
    assert("-c"@[1] == 'c' && "-d"@[1] == 'd' && "run"@[0] == 'r' && "--config"@[2] == 'c');
    assert("--config"@[0] == '-' && "--work-dir"@[0] == '-' && "-d"@[0] == '-' && "-c"@[0] == '-');
}

/// A directory that starts with a slash is taken as it is; any other is taken from the directory of
/// the process, and cannot be told where that is not known.
pub proof fn directory_is_taken_from_the_process(raw: Seq<u8>, cwd: Seq<u8>)
    ensures
        absolute(raw) ==> daemon_dir(raw, None) == Some(normalized(raw)) && daemon_dir(
            raw,
            Some(cwd),
        ) == Some(normalized(raw)),
        !absolute(raw) ==> daemon_dir(raw, None) is None && daemon_dir(raw, Some(cwd)) == Some(
            normalized(joined_path(cwd, raw)),
        ),
{
}

/// The start of a process is the twentieth word after the last bracket that a space follows,
/// whatever brackets stand before it.
pub proof fn start_is_told_after_the_last_bracket(head: Seq<char>, rest: Seq<char>)
    requires
        forall|i: int| 0 <= i < rest.len() - 1 ==> !(#[trigger] rest[i] == ')' && rest[i + 1] == ' '),
    ensures
        start_ticks(head + seq![')', ' '] + rest) == (if words(rest).len() > 19 {
            unsigned_value(words(rest)[19], 10, 0xFFFF_FFFF_FFFF_FFFF)
        } else {
            None
        }),
{
    let raw = head + seq![')', ' '] + rest;
    let k = head.len() as int;
    assert(raw[k] == ')' && raw[k + 1] == ' ');
    assert forall|i: int| k < i < raw.len() - 1 implies !(#[trigger] raw[i] == ')' && raw[i + 1]
        == ' ') by {
        if i >= k + 2 {
            assert(raw[i] == rest[i - k - 2]);
            assert(raw[i + 1] == rest[i - k - 1]);
        }
    }
    lemma_last_bracket(raw, k, raw.len() as int);
    assert(raw.subrange(k + 2, raw.len() as int) =~= rest);
}

/// Where the last bracket is.
proof fn lemma_last_bracket(s: Seq<char>, k: int, n: int)
    requires
        0 <= k,
        k + 1 < s.len(),
        k + 1 <= n <= s.len(),
        s[k] == ')' && s[k + 1] == ' ',
        forall|i: int|
            k < i < s.len() - 1 ==> !(#[trigger] s[i] == ')' && s[i + 1] == ' '),
    ensures
        last_bracket(s, n) == Some(k),
    decreases n,
{
    if n > k + 1 {
        if n < s.len() {
            let i = n - 1;
            assert(!(s[i] == ')' && s[i + 1] == ' '));
        }
        lemma_last_bracket(s, k, n - 1);
    }
}

/// A process is a daemon by its name if the last part of its path starts with `addrsyncd`.
pub proof fn daemon_is_known_by_its_name(name: Seq<u8>, rest: Seq<u8>)
    ensures
        is_own_name(encode_utf8("addrsyncd"@) + rest),
        is_own_name(name) ==> name == encode_utf8("addrsyncd"@) + name.skip(
            encode_utf8("addrsyncd"@).len() as int,
        ),
{
    let prefix = encode_utf8("addrsyncd"@);
    assert((prefix + rest).subrange(0, prefix.len() as int) =~= prefix);
    if is_own_name(name) {
        assert(name =~= prefix + name.skip(prefix.len() as int));
    }
}

/// The name at the end of a path is its last part that is neither empty nor a dot; a path that ends
/// in two dots has none.
pub proof fn name_is_the_last_part(parts: Seq<Seq<u8>>, part: Seq<u8>)
    ensures
        last_name(Seq::empty()) is None,
        part.len() == 0 || part == seq![46u8] ==> last_name(parts.push(part)) == last_name(parts),
        part == seq![46u8, 46] ==> last_name(parts.push(part)) is None,
        part.len() > 0 && part != seq![46u8] && part != seq![46u8, 46] ==> last_name(
            parts.push(part),
        ) == Some(part),
{
    assert(parts.push(part).drop_last() =~= parts);
    assert(seq![46u8, 46].len() == 2);
    assert(seq![46u8].len() == 1);
}

/// The working directory of a process is read from its arguments after the first; without one it is
/// the directory of the process.
pub proof fn directory_is_read_after_the_name(args: Seq<Seq<char>>, cwd: Option<Seq<u8>>)
    ensures
        run_dir(args, 1, encode_utf8("."@)) is None ==> run_work_dir(args, cwd) is None,
        run_dir(args, 1, encode_utf8("."@)) matches Some(raw) ==> run_work_dir(args, cwd)
            == daemon_dir(raw, cwd),
        args.len() == 2 && args[1] == "run"@ ==> run_work_dir(args, cwd) == daemon_dir(
            encode_utf8("."@),
            cwd,
        ),
{
    if args.len() == 2 && args[1] == "run"@ {
        running_daemon_names_its_directory(args, 1, encode_utf8("."@));
    }
}

// ---------------------------------------------------------------------------
// Help and refusals
// ---------------------------------------------------------------------------

/// The words for help differ from the options of the commands.
proof fn lemma_help_words(help: Seq<char>)
    requires
        help == "-h"@ || help == "--help"@,
    ensures
        ({
            let h = encode_utf8(help);
            &&& h != encode_utf8("--daemon"@) && h != encode_utf8("--mode"@)
            &&& h != encode_utf8("--family"@) && h != encode_utf8("--mark"@)
            &&& h != encode_utf8("--mask"@) && h != encode_utf8("--table"@)
            &&& h != encode_utf8("--pref"@)
            &&& h != encode_utf8("apply"@) && h != encode_utf8("cleanup"@)
            &&& h != encode_utf8("status"@)
        }),
{
    reveal_strlit("-h");
    reveal_strlit("--help");
    reveal_strlit("--daemon");
    reveal_strlit("--mode");
    reveal_strlit("--family");
    reveal_strlit("--mark");
    reveal_strlit("--mask");
    reveal_strlit("--table");
    reveal_strlit("--pref");
    reveal_strlit("apply");
    reveal_strlit("cleanup");
    reveal_strlit("status");
    assert("--help"@[2] == 'h' && "--mode"@[2] == 'm' && "--mark"@[2] == 'm' && "--mask"@[2] == 'm'
        && "--pref"@[2] == 'p' && "status"@[0] == 's' && "--help"@[0] == '-');
    assert("-h"@.len() == 2 && "--help"@.len() == 6 && "--daemon"@.len() == 8);
    assert(help.len() == 2 || help.len() == 6);
    lemma_apart(help, "--daemon"@);
    lemma_apart(help, "--mode"@);
    lemma_apart(help, "--family"@);
    lemma_apart(help, "--mark"@);
    lemma_apart(help, "--mask"@);
    lemma_apart(help, "--table"@);
    lemma_apart(help, "--pref"@);
    lemma_apart(help, "apply"@);
    lemma_apart(help, "cleanup"@);
    lemma_apart(help, "status"@);
}

/// Every command that takes options gives help where it is asked for it, by the short or the long
/// word.
pub proof fn help_is_given_where_asked(
    args: Seq<Seq<u8>>,
    i: int,
    daemon: bool,
    mode: CleanupMode,
    opts: PbrOptions,
)
    requires
        0 <= i < args.len(),
        args[i] == encode_utf8("-h"@) || args[i] == encode_utf8("--help"@),
    ensures
        run_args(args, i, daemon) == SubView::Help,
        cleanup_args(args, i, mode) == SubView::Help,
        pbr_options(args, i, opts) == PbrScan::Help,
        pbr_args(args, i) == SubView::Help,
{
    lemma_help_words("-h"@);
    lemma_help_words("--help"@);
}

/// An option of a request without its value, and one that is unknown, is refused.
pub proof fn request_options_need_values(args: Seq<Seq<u8>>, i: int, opts: PbrOptions)
    requires
        0 <= i < args.len(),
    ensures
        ({
            let takes_value = args[i] == encode_utf8("--family"@) || args[i] == encode_utf8(
                "--mark"@,
            ) || args[i] == encode_utf8("--mask"@) || args[i] == encode_utf8("--table"@) || args[i]
                == encode_utf8("--pref"@);
            let asks_help = args[i] == encode_utf8("-h"@) || args[i] == encode_utf8("--help"@);
            &&& takes_value && i + 1 == args.len() ==> pbr_options(args, i, opts) is Fail
            &&& !takes_value && !asks_help ==> pbr_options(args, i, opts) is Fail
        }),
{
    lemma_request_words();
}

} // verus!
