//! The command line. Arguments are byte strings.
use crate::error::{AppError, ErrorView};
use crate::sys::{AF_INET, AF_INET6};
use crate::text::{bytes_eq, chars_of, lossy_text, lossy_utf8, parse_unsigned, unsigned_value};
use vstd::prelude::*;
use vstd::slice::slice_subrange;
use vstd::utf8::{decode_utf8, encode_utf8, valid_utf8};

verus! {

pub const DEFAULT_CONFIG_FILE: &'static str = "addrsyncd.toml";
pub const DEFAULT_WORK_DIR: &'static str = ".";

pub const RUN_USAGE: &'static str =
    "USAGE:\n  addrsyncd [OPTIONS] run [--daemon]\n\nOPTIONS:\n  --daemon    Start in background mode";
pub const CLEANUP_USAGE: &'static str =
    "USAGE:\n  addrsyncd [OPTIONS] cleanup [--mode tracked|dump]\n\nOPTIONS:\n  --mode <tracked|dump>    Cleanup source mode (default: dump)";
pub const PBR_USAGE: &'static str =
    "USAGE:\n  addrsyncd [OPTIONS] pbr <apply|cleanup|status> --family <4|6> --mark <MARK> --mask <MASK> --table <ID> --pref <PREF>\n\nOPTIONS:\n  --family <4|6>    Address family\n  --mark <MARK>     fwmark value (decimal or 0x hex)\n  --mask <MASK>     fwmark mask (decimal or 0x hex)\n  --table <ID>      Routing table id\n  --pref <PREF>     Rule priority";
pub const MAIN_USAGE_HEAD: &'static str =
    " - Address to ip-rule sync daemon\n\nUSAGE:\naddrsyncd [OPTIONS] <COMMAND>\n\nOPTIONS:\n-c, --config <PATH>    Config file [default: ";
pub const MAIN_USAGE_MIDDLE: &'static str =
    "]\n-d, --work-dir <PATH>  Working directory [default: ";
pub const MAIN_USAGE_TAIL: &'static str =
    "]\n-h, --help             Show this help\n-v, --version          Show version\n\nCOMMANDS:\nrun [--daemon]                   Start the daemon\nstop                             Stop a running daemon\nresync                           Signal a full resync\ncleanup [--mode tracked|dump]    Cleanup stale rules\npbr <apply|cleanup|status> ...   Manage Flux policy routing\nstatus                           Print daemon status";

/// The general help.
pub fn main_usage(version: &str) -> (r: String)
    ensures
        r@ == "addrsyncd "@ + version@ + MAIN_USAGE_HEAD@ + DEFAULT_CONFIG_FILE@
            + MAIN_USAGE_MIDDLE@ + DEFAULT_WORK_DIR@ + MAIN_USAGE_TAIL@,
{
    let mut s = String::new();
    s.append("addrsyncd ");
    s.append(version);
    s.append(MAIN_USAGE_HEAD);
    s.append(DEFAULT_CONFIG_FILE);
    s.append(MAIN_USAGE_MIDDLE);
    s.append(DEFAULT_WORK_DIR);
    s.append(MAIN_USAGE_TAIL);
    assert(s@ =~= "addrsyncd "@ + version@ + MAIN_USAGE_HEAD@ + DEFAULT_CONFIG_FILE@
        + MAIN_USAGE_MIDDLE@ + DEFAULT_WORK_DIR@ + MAIN_USAGE_TAIL@);
    s
}

/// Which rules a cleanup deletes.
#[derive(Debug, Clone, Copy, PartialEq, Eq, Structural)]
pub enum CleanupMode {
    /// Those that this process added.
    Owned,
    /// Those that the kernel lists.
    Dump,
}

#[derive(Debug, Clone, Copy, PartialEq, Eq, Structural)]
pub enum PbrAction {
    Apply,
    Cleanup,
    Status,
}

#[derive(Debug, Clone, Copy, PartialEq, Eq, Structural)]
pub enum PbrFamily {
    Ipv4,
    Ipv6,
}

/// The number of a family.
pub open spec fn family_number(f: PbrFamily) -> i32 {
    match f {
        PbrFamily::Ipv4 => AF_INET,
        PbrFamily::Ipv6 => AF_INET6,
    }
}

impl PbrFamily {
    /// The number of the family.
    pub fn as_i32(self) -> (r: i32)
        ensures
            r == family_number(self),
            r == AF_INET || r == AF_INET6,
    {
        match self {
            PbrFamily::Ipv4 => AF_INET,
            PbrFamily::Ipv6 => AF_INET6,
        }
    }
}

/// A request to route marked packets.
#[derive(Debug, Clone, Copy, PartialEq, Eq, Structural)]
pub struct PbrRequest {
    pub action: PbrAction,
    pub family: PbrFamily,
    pub mark: u32,
    pub mask: u32,
    pub table: u32,
    pub pref: u32,
}

#[derive(Debug, Clone, Copy, PartialEq, Eq, Structural)]
pub enum Command {
    Run { daemon: bool },
    Stop,
    Resync,
    Cleanup { mode: CleanupMode },
    Pbr { request: PbrRequest },
    Status,
}

/// The command line once it was read.
#[derive(Debug)]
pub struct Cli {
    pub config: Vec<u8>,
    pub work_dir: Vec<u8>,
    pub command: Command,
}

#[derive(Debug)]
pub struct RuntimePaths {
    pub config: Vec<u8>,
    pub work_dir: Vec<u8>,
}

impl Cli {
    /// Parts the paths from the command.
    pub fn into_parts(self) -> (r: (RuntimePaths, Command))
        ensures
            r.0.config == self.config,
            r.0.work_dir == self.work_dir,
            r.1 == self.command,
    {
        (RuntimePaths { config: self.config, work_dir: self.work_dir }, self.command)
    }
}

/// A help text.
#[derive(Debug, Clone, Copy, PartialEq, Eq, Structural)]
pub enum HelpTopic {
    Main,
    Run,
    Cleanup,
    Pbr,
}

/// What a command line comes to.
#[derive(Debug)]
pub enum Parsed {
    Cli(Cli),
    Help(HelpTopic),
    Version,
}

/// What a command line comes to.
pub enum ParsedView {
    Cli { config: Seq<u8>, work_dir: Seq<u8>, command: Command },
    Help(HelpTopic),
    Version,
    Fail(Seq<char>),
}

/// What the result of reading a command line stands for. Every error is a plain message.
pub open spec fn parsed_view(r: Result<Parsed, AppError>) -> Option<ParsedView> {
    match r {
        Ok(Parsed::Cli(cli)) => Some(
            ParsedView::Cli {
                config: cli.config@,
                work_dir: cli.work_dir@,
                command: cli.command,
            },
        ),
        Ok(Parsed::Help(topic)) => Some(ParsedView::Help(topic)),
        Ok(Parsed::Version) => Some(ParsedView::Version),
        Err(e) => match e@ {
            ErrorView::Message(text) => Some(ParsedView::Fail(text)),
            _ => None,
        },
    }
}

/// The bytes of each argument.
pub open spec fn arg_views(args: Seq<Vec<u8>>) -> Seq<Seq<u8>> {
    Seq::new(args.len(), |i: int| args[i]@)
}

/// Whether an argument is a word.
pub open spec fn is_word(arg: Seq<u8>, word: &str) -> bool {
    arg == encode_utf8(word@)
}

/// Whether an argument is a word.
pub fn arg_is(arg: &[u8], expected: &str) -> (r: bool)
    ensures
        r == is_word(arg@, expected),
{
    bytes_eq(arg, expected.as_bytes())
}

/// The argument as text.
pub fn render_arg(arg: &[u8]) -> (r: String)
    ensures
        r@ == lossy_utf8(arg@),
        valid_utf8(arg@) ==> r@ == decode_utf8(arg@),
{
    lossy_text(arg)
}

/// An error that quotes an argument.
fn quoting(before: &str, arg: &[u8], after: &str) -> (r: AppError)
    ensures
        r@ == ErrorView::Message(before@ + lossy_utf8(arg@) + after@),
{
    let mut s = String::new();
    s.append(before);
    let shown = render_arg(arg);
    s.append(shown.as_str());
    s.append(after);
    assert(s@ =~= before@ + lossy_utf8(arg@) + after@);
    AppError::Message(s)
}

// ---------------------------------------------------------------------------
// Subcommands
// ---------------------------------------------------------------------------

/// What the arguments after a subcommand come to.
pub enum SubView {
    Command(Command),
    Help,
    Fail(Seq<char>),
}

/// What the arguments after a subcommand come to.
#[derive(Debug, Clone, Copy)]
pub enum Sub {
    Command(Command),
    Help,
}

/// What the result of reading a subcommand stands for.
pub open spec fn sub_view(r: Result<Sub, AppError>) -> Option<SubView> {
    match r {
        Ok(Sub::Command(c)) => Some(SubView::Command(c)),
        Ok(Sub::Help) => Some(SubView::Help),
        Err(e) => match e@ {
            ErrorView::Message(text) => Some(SubView::Fail(text)),
            _ => None,
        },
    }
}

/// Whether an argument asks for help.
pub open spec fn asks_help(arg: Seq<u8>) -> bool {
    is_word(arg, "-h") || is_word(arg, "--help")
}

/// Whether an argument asks for help.
fn arg_asks_help(arg: &[u8]) -> (r: bool)
    ensures
        r == asks_help(arg@),
{
    arg_is(arg, "-h") || arg_is(arg, "--help")
}

/// What the arguments of `run` from place `i` on come to.
pub open spec fn run_args(args: Seq<Seq<u8>>, i: int, daemon: bool) -> SubView
    decreases args.len() - i,
{
    if i >= args.len() {
        SubView::Command(Command::Run { daemon })
    } else if is_word(args[i], "--daemon") {
        run_args(args, i + 1, true)
    } else if asks_help(args[i]) {
        SubView::Help
    } else {
        SubView::Fail("run: unknown option '"@ + lossy_utf8(args[i]) + "'"@)
    }
}

/// Reads the arguments of `run` from place `i` on.
pub fn parse_run_command(args: &[Vec<u8>], i: usize) -> (r: Result<Sub, AppError>)
    ensures
        sub_view(r) == Some(run_args(arg_views(args@), i as int, false)),
{
    let ghost all = arg_views(args@);
    let mut daemon = false;
    let mut at: usize = i;
    while at < args.len()
        invariant
            all == arg_views(args@),
            run_args(all, i as int, false) == run_args(all, at as int, daemon),
        decreases args@.len() - at,
    {
        let arg = args[at].as_slice();
        assert(arg@ == all[at as int]);
        if arg_is(arg, "--daemon") {
            daemon = true;
        } else if arg_asks_help(arg) {
            return Ok(Sub::Help);
        } else {
            return Err(quoting("run: unknown option '", arg, "'"));
        }
        at = at + 1;
    }
    Ok(Sub::Command(Command::Run { daemon }))
}

/// What the arguments of `cleanup` from place `i` on come to.
pub open spec fn cleanup_args(args: Seq<Seq<u8>>, i: int, mode: CleanupMode) -> SubView
    decreases args.len() - i,
{
    if i >= args.len() {
        SubView::Command(Command::Cleanup { mode })
    } else if is_word(args[i], "--mode") {
        if i + 1 >= args.len() {
            SubView::Fail("cleanup: --mode requires a value (tracked|dump)"@)
        } else if is_word(args[i + 1], "tracked") {
            cleanup_args(args, i + 2, CleanupMode::Owned)
        } else if is_word(args[i + 1], "dump") {
            cleanup_args(args, i + 2, CleanupMode::Dump)
        } else {
            SubView::Fail(
                "cleanup: unknown mode '"@ + lossy_utf8(args[i + 1])
                    + "' (expected tracked|dump)"@,
            )
        }
    } else if asks_help(args[i]) {
        SubView::Help
    } else {
        SubView::Fail("cleanup: unknown option '"@ + lossy_utf8(args[i]) + "'"@)
    }
}

/// Reads the arguments of `cleanup` from place `i` on.
pub fn parse_cleanup_command(args: &[Vec<u8>], i: usize) -> (r: Result<Sub, AppError>)
    ensures
        sub_view(r) == Some(cleanup_args(arg_views(args@), i as int, CleanupMode::Dump)),
{
    let ghost all = arg_views(args@);
    let mut mode = CleanupMode::Dump;
    let mut at: usize = i;
    while at < args.len()
        invariant
            all == arg_views(args@),
            cleanup_args(all, i as int, CleanupMode::Dump) == cleanup_args(all, at as int, mode),
        decreases args@.len() - at,
    {
        let arg = args[at].as_slice();
        assert(arg@ == all[at as int]);
        if arg_is(arg, "--mode") {
            at = at + 1;
            if at >= args.len() {
                return Err(AppError::message("cleanup: --mode requires a value (tracked|dump)"));
            }
            let value = args[at].as_slice();
            assert(value@ == all[at as int]);
            if arg_is(value, "tracked") {
                mode = CleanupMode::Owned;
            } else if arg_is(value, "dump") {
                mode = CleanupMode::Dump;
            } else {
                return Err(
                    quoting("cleanup: unknown mode '", value, "' (expected tracked|dump)"),
                );
            }
        } else if arg_asks_help(arg) {
            return Ok(Sub::Help);
        } else {
            return Err(quoting("cleanup: unknown option '", arg, "'"));
        }
        at = at + 1;
    }
    Ok(Sub::Command(Command::Cleanup { mode }))
}

// ---------------------------------------------------------------------------
// Policy routing
// ---------------------------------------------------------------------------

/// The options of `pbr` that were met.
#[derive(Debug, Clone, Copy, PartialEq, Eq, Structural)]
pub struct PbrOptions {
    pub family: Option<PbrFamily>,
    pub mark: Option<u32>,
    pub mask: Option<u32>,
    pub table: Option<u32>,
    pub pref: Option<u32>,
}

/// The options of `pbr` before any was met.
pub open spec fn no_pbr_options() -> PbrOptions {
    PbrOptions { family: None, mark: None, mask: None, table: None, pref: None }
}

/// The family that an argument stands for.
pub open spec fn family_of(arg: Seq<u8>) -> Option<PbrFamily> {
    if is_word(arg, "4") || is_word(arg, "ipv4") {
        Some(PbrFamily::Ipv4)
    } else if is_word(arg, "6") || is_word(arg, "ipv6") {
        Some(PbrFamily::Ipv6)
    } else {
        None
    }
}

/// Reads a family.
pub fn parse_pbr_family(arg: &[u8]) -> (r: Result<PbrFamily, AppError>)
    ensures
        match r {
            Ok(f) => family_of(arg@) == Some(f),
            Err(e) => family_of(arg@) is None && e@ == ErrorView::Message(
                "pbr: invalid --family '"@ + lossy_utf8(arg@) + "' (expected 4|6)"@,
            ),
        },
{
    if arg_is(arg, "4") || arg_is(arg, "ipv4") {
        Ok(PbrFamily::Ipv4)
    } else if arg_is(arg, "6") || arg_is(arg, "ipv6") {
        Ok(PbrFamily::Ipv6)
    } else {
        Err(quoting("pbr: invalid --family '", arg, "' (expected 4|6)"))
    }
}

/// The number that a text stands for: hexadecimal after `0x` or `0X`, else decimal.
pub open spec fn u32_of(s: Seq<char>) -> Option<nat> {
    if s.len() >= 2 && s[0] == '0' && (s[1] == 'x' || s[1] == 'X') {
        unsigned_value(s.subrange(2, s.len() as int), 16, u32::MAX as nat)
    } else {
        unsigned_value(s, 10, u32::MAX as nat)
    }
}

/// Reads a number.
pub fn parse_u32_arg(arg: &[u8], msg: &str) -> (r: Result<u32, AppError>)
    ensures
        match r {
            Ok(v) => u32_of(lossy_utf8(arg@)) == Some(v as nat),
            Err(e) => u32_of(lossy_utf8(arg@)) is None && e@ == ErrorView::Message(
                msg@ + ": "@ + lossy_utf8(arg@),
            ),
        },
{
    let raw = render_arg(arg);
    let chars = chars_of(raw.as_str());
    let n: usize = chars.len();
    let parsed = if n >= 2 && chars[0] == '0' && (chars[1] == 'x' || chars[1] == 'X') {
        parse_unsigned(slice_subrange(chars.as_slice(), 2, n), 16, 0xFFFF_FFFF)
    } else {
        parse_unsigned(chars.as_slice(), 10, 0xFFFF_FFFF)
    };
    match parsed {
        Some(v) => Ok(v as u32),
        None => {
            let mut s = String::new();
            s.append(msg);
            s.append(": ");
            s.append(raw.as_str());
            assert(s@ =~= msg@ + ": "@ + lossy_utf8(arg@));
            Err(AppError::Message(s))
        },
    }
}

/// What the options of `pbr` come to.
pub enum PbrScan {
    Options(PbrOptions),
    Help,
    Fail(Seq<char>),
}

/// The options with a number set.
pub open spec fn with_number(opts: PbrOptions, which: int, v: u32) -> PbrOptions {
    if which == 0 {
        PbrOptions { mark: Some(v), ..opts }
    } else if which == 1 {
        PbrOptions { mask: Some(v), ..opts }
    } else if which == 2 {
        PbrOptions { table: Some(v), ..opts }
    } else {
        PbrOptions { pref: Some(v), ..opts }
    }
}

/// Which of the numeric options an argument is.
pub open spec fn number_option(arg: Seq<u8>) -> Option<int> {
    if is_word(arg, "--mark") {
        Some(0)
    } else if is_word(arg, "--mask") {
        Some(1)
    } else if is_word(arg, "--table") {
        Some(2)
    } else if is_word(arg, "--pref") {
        Some(3)
    } else {
        None
    }
}

/// What is said where a numeric option has no value.
pub open spec fn number_missing(which: int) -> Seq<char> {
    if which == 0 {
        "pbr: --mark requires a value"@
    } else if which == 1 {
        "pbr: --mask requires a value"@
    } else if which == 2 {
        "pbr: --table requires a value"@
    } else {
        "pbr: --pref requires a value"@
    }
}

/// What is said where the value of a numeric option is no number.
pub open spec fn number_invalid(which: int) -> Seq<char> {
    if which == 0 {
        "pbr: invalid --mark"@
    } else if which == 1 {
        "pbr: invalid --mask"@
    } else if which == 2 {
        "pbr: invalid --table"@
    } else {
        "pbr: invalid --pref"@
    }
}

/// What the options of `pbr` from place `i` on come to. A later option overrides an earlier one.
pub open spec fn pbr_options(args: Seq<Seq<u8>>, i: int, opts: PbrOptions) -> PbrScan
    decreases args.len() - i,
{
    if i >= args.len() {
        PbrScan::Options(opts)
    } else if is_word(args[i], "--family") {
        if i + 1 >= args.len() {
            PbrScan::Fail("pbr: --family requires a value (4|6)"@)
        } else {
            match family_of(args[i + 1]) {
                Some(f) => pbr_options(args, i + 2, PbrOptions { family: Some(f), ..opts }),
                None => PbrScan::Fail(
                    "pbr: invalid --family '"@ + lossy_utf8(args[i + 1]) + "' (expected 4|6)"@,
                ),
            }
        }
    } else if let Some(which) = number_option(args[i]) {
        if i + 1 >= args.len() {
            PbrScan::Fail(number_missing(which))
        } else {
            match u32_of(lossy_utf8(args[i + 1])) {
                Some(v) => pbr_options(args, i + 2, with_number(opts, which, v as u32)),
                None => PbrScan::Fail(
                    number_invalid(which) + ": "@ + lossy_utf8(args[i + 1]),
                ),
            }
        }
    } else if asks_help(args[i]) {
        PbrScan::Help
    } else {
        PbrScan::Fail("pbr: unknown option '"@ + lossy_utf8(args[i]) + "'"@)
    }
}

/// The request that the options make, or what is said where one is missing or out of range.
pub open spec fn pbr_request(action: PbrAction, opts: PbrOptions) -> SubView {
    if opts.family is None {
        SubView::Fail("pbr: --family is required"@)
    } else if opts.mark is None {
        SubView::Fail("pbr: --mark is required"@)
    } else if opts.mask is None {
        SubView::Fail("pbr: --mask is required"@)
    } else if opts.table is None {
        SubView::Fail("pbr: --table is required"@)
    } else if opts.pref is None {
        SubView::Fail("pbr: --pref is required"@)
    } else if opts.mask == Some(0u32) {
        SubView::Fail("pbr: --mask must be non-zero"@)
    } else if opts.table == Some(0u32) || opts.pref == Some(0u32) {
        SubView::Fail("pbr: --table and --pref must be positive"@)
    } else {
        SubView::Command(
            Command::Pbr {
                request: PbrRequest {
                    action,
                    family: opts.family->Some_0,
                    mark: opts.mark->Some_0,
                    mask: opts.mask->Some_0,
                    table: opts.table->Some_0,
                    pref: opts.pref->Some_0,
                },
            },
        )
    }
}

/// The action that an argument stands for.
pub open spec fn action_of(arg: Seq<u8>) -> Option<PbrAction> {
    if is_word(arg, "apply") {
        Some(PbrAction::Apply)
    } else if is_word(arg, "cleanup") {
        Some(PbrAction::Cleanup)
    } else if is_word(arg, "status") {
        Some(PbrAction::Status)
    } else {
        None
    }
}

/// What the arguments of `pbr` from place `i` on come to.
pub open spec fn pbr_args(args: Seq<Seq<u8>>, i: int) -> SubView {
    if i >= args.len() {
        SubView::Fail("pbr: action required (apply|cleanup|status)"@)
    } else {
        match action_of(args[i]) {
            None => if asks_help(args[i]) {
                SubView::Help
            } else {
                SubView::Fail(
                    "pbr: unknown action '"@ + lossy_utf8(args[i])
                        + "' (expected apply|cleanup|status)"@,
                )
            },
            Some(action) => match pbr_options(args, i + 1, no_pbr_options()) {
                PbrScan::Help => SubView::Help,
                PbrScan::Fail(text) => SubView::Fail(text),
                PbrScan::Options(opts) => pbr_request(action, opts),
            },
        }
    }
}

/// The options of `pbr`, or a call for help.
enum Scanned {
    Options(PbrOptions),
    Help,
}

/// What the result of reading the options of `pbr` stands for.
spec fn scan_view(r: Result<Scanned, AppError>) -> Option<PbrScan> {
    match r {
        Ok(Scanned::Options(o)) => Some(PbrScan::Options(o)),
        Ok(Scanned::Help) => Some(PbrScan::Help),
        Err(e) => match e@ {
            ErrorView::Message(text) => Some(PbrScan::Fail(text)),
            _ => None,
        },
    }
}

/// The argument at place `i`, or an error where there is none.
pub fn next_required<'a>(args: &'a [Vec<u8>], i: usize, msg: &str) -> (r: Result<
    &'a [u8],
    AppError,
>)
    ensures
        match r {
            Ok(arg) => i < args@.len() && arg@ == args@[i as int]@,
            Err(e) => i >= args@.len() && e@ == ErrorView::Message(msg@),
        },
{
    if i < args.len() {
        Ok(args[i].as_slice())
    } else {
        Err(AppError::message(msg))
    }
}

/// Reads the options of `pbr` from place `i` on.
fn scan_pbr_options(args: &[Vec<u8>], i: usize) -> (r: Result<Scanned, AppError>)
    ensures
        scan_view(r) == Some(pbr_options(arg_views(args@), i as int, no_pbr_options())),
{
    let ghost all = arg_views(args@);
    let mut opts = PbrOptions { family: None, mark: None, mask: None, table: None, pref: None };
    let mut at: usize = i;
    while at < args.len()
        invariant
            all == arg_views(args@),
            pbr_options(all, i as int, no_pbr_options()) == pbr_options(all, at as int, opts),
        decreases args@.len() - at,
    {
        let arg = args[at].as_slice();
        assert(arg@ == all[at as int]);
        if arg_is(arg, "--family") {
            at = at + 1;
            let value = match next_required(args, at, "pbr: --family requires a value (4|6)") {
                Ok(value) => value,
                Err(e) => return Err(e),
            };
            assert(value@ == all[at as int]);
            match parse_pbr_family(value) {
                Ok(f) => {
                    opts.family = Some(f);
                },
                Err(e) => return Err(e),
            }
        } else if arg_is(arg, "--mark") {
            at = at + 1;
            let value = match next_required(args, at, "pbr: --mark requires a value") {
                Ok(value) => value,
                Err(e) => return Err(e),
            };
            assert(value@ == all[at as int]);
            match parse_u32_arg(value, "pbr: invalid --mark") {
                Ok(v) => {
                    opts.mark = Some(v);
                },
                Err(e) => return Err(e),
            }
        } else if arg_is(arg, "--mask") {
            at = at + 1;
            let value = match next_required(args, at, "pbr: --mask requires a value") {
                Ok(value) => value,
                Err(e) => return Err(e),
            };
            assert(value@ == all[at as int]);
            match parse_u32_arg(value, "pbr: invalid --mask") {
                Ok(v) => {
                    opts.mask = Some(v);
                },
                Err(e) => return Err(e),
            }
        } else if arg_is(arg, "--table") {
            at = at + 1;
            let value = match next_required(args, at, "pbr: --table requires a value") {
                Ok(value) => value,
                Err(e) => return Err(e),
            };
            assert(value@ == all[at as int]);
            match parse_u32_arg(value, "pbr: invalid --table") {
                Ok(v) => {
                    opts.table = Some(v);
                },
                Err(e) => return Err(e),
            }
        } else if arg_is(arg, "--pref") {
            at = at + 1;
            let value = match next_required(args, at, "pbr: --pref requires a value") {
                Ok(value) => value,
                Err(e) => return Err(e),
            };
            assert(value@ == all[at as int]);
            match parse_u32_arg(value, "pbr: invalid --pref") {
                Ok(v) => {
                    opts.pref = Some(v);
                },
                Err(e) => return Err(e),
            }
        } else if arg_asks_help(arg) {
            return Ok(Scanned::Help);
        } else {
            return Err(quoting("pbr: unknown option '", arg, "'"));
        }
        at = at + 1;
    }
    Ok(Scanned::Options(opts))
}

/// Reads the arguments of `pbr` from place `i` on.
pub fn parse_pbr_command(args: &[Vec<u8>], i: usize) -> (r: Result<Sub, AppError>)
    ensures
        sub_view(r) == Some(pbr_args(arg_views(args@), i as int)),
{
    let ghost all = arg_views(args@);
    let arg = match next_required(args, i, "pbr: action required (apply|cleanup|status)") {
        Ok(arg) => arg,
        Err(e) => return Err(e),
    };
    let count: usize = args.len();
    assert(i < count);
    assert(arg@ == all[i as int]);
    let action = if arg_is(arg, "apply") {
        PbrAction::Apply
    } else if arg_is(arg, "cleanup") {
        PbrAction::Cleanup
    } else if arg_is(arg, "status") {
        PbrAction::Status
    } else if arg_asks_help(arg) {
        return Ok(Sub::Help);
    } else {
        return Err(
            quoting("pbr: unknown action '", arg, "' (expected apply|cleanup|status)"),
        );
    };
    let opts = match scan_pbr_options(args, i + 1) {
        Ok(Scanned::Options(opts)) => opts,
        Ok(Scanned::Help) => return Ok(Sub::Help),
        Err(e) => return Err(e),
    };
    let family = match opts.family {
        Some(family) => family,
        None => return Err(AppError::message("pbr: --family is required")),
    };
    let mark: u32 = match opts.mark {
        Some(mark) => mark,
        None => return Err(AppError::message("pbr: --mark is required")),
    };
    let mask: u32 = match opts.mask {
        Some(mask) => mask,
        None => return Err(AppError::message("pbr: --mask is required")),
    };
    let table: u32 = match opts.table {
        Some(table) => table,
        None => return Err(AppError::message("pbr: --table is required")),
    };
    let pref: u32 = match opts.pref {
        Some(pref) => pref,
        None => return Err(AppError::message("pbr: --pref is required")),
    };
    if mask == 0 {
        return Err(AppError::message("pbr: --mask must be non-zero"));
    }
    if table == 0 || pref == 0 {
        return Err(AppError::message("pbr: --table and --pref must be positive"));
    }
    Ok(
        Sub::Command(
            Command::Pbr { request: PbrRequest { action, family, mark, mask, table, pref } },
        ),
    )
}

// ---------------------------------------------------------------------------
// The whole line
// ---------------------------------------------------------------------------

/// What the options before the subcommand come to.
pub enum Globals {
    Done { at: int, config: Seq<u8>, work_dir: Seq<u8> },
    Help,
    Version,
    Fail(Seq<char>),
}

/// What the options before the subcommand come to, from place `i` on.
pub open spec fn globals(
    args: Seq<Seq<u8>>,
    i: int,
    config: Seq<u8>,
    work_dir: Seq<u8>,
) -> Globals
    decreases args.len() - i,
{
    if i >= args.len() {
        Globals::Done { at: i, config, work_dir }
    } else if is_word(args[i], "-c") || is_word(args[i], "--config") {
        if i + 1 >= args.len() {
            Globals::Fail("-c/--config requires a value"@)
        } else {
            globals(args, i + 2, args[i + 1], work_dir)
        }
    } else if is_word(args[i], "-d") || is_word(args[i], "--work-dir") {
        if i + 1 >= args.len() {
            Globals::Fail("-d/--work-dir requires a value"@)
        } else {
            globals(args, i + 2, config, args[i + 1])
        }
    } else if asks_help(args[i]) {
        Globals::Help
    } else if is_word(args[i], "-v") || is_word(args[i], "--version") {
        Globals::Version
    } else {
        Globals::Done { at: i, config, work_dir }
    }
}

/// A subcommand that takes no arguments.
pub open spec fn bare(args: Seq<Seq<u8>>, i: int, before: Seq<char>, command: Command) -> SubView {
    if i < args.len() {
        SubView::Fail(before + lossy_utf8(args[i]) + "'"@)
    } else {
        SubView::Command(command)
    }
}

/// What the subcommand at place `i` comes to, with the help that it has.
pub open spec fn subcommand(args: Seq<Seq<u8>>, i: int) -> (SubView, HelpTopic) {
    if is_word(args[i], "run") {
        (run_args(args, i + 1, false), HelpTopic::Run)
    } else if is_word(args[i], "stop") {
        (bare(args, i + 1, "stop: unknown option '"@, Command::Stop), HelpTopic::Main)
    } else if is_word(args[i], "resync") {
        (bare(args, i + 1, "resync: unknown option '"@, Command::Resync), HelpTopic::Main)
    } else if is_word(args[i], "cleanup") {
        (cleanup_args(args, i + 1, CleanupMode::Dump), HelpTopic::Cleanup)
    } else if is_word(args[i], "pbr") {
        (pbr_args(args, i + 1), HelpTopic::Pbr)
    } else if is_word(args[i], "status") {
        (bare(args, i + 1, "status: unknown option '"@, Command::Status), HelpTopic::Main)
    } else {
        (
            SubView::Fail(
                "unknown subcommand '"@ + lossy_utf8(args[i])
                    + "' (expected run|stop|resync|cleanup|pbr|status)"@,
            ),
            HelpTopic::Main,
        )
    }
}

/// What a command line comes to. Its first argument is the name of the program.
pub open spec fn parsed(args: Seq<Seq<u8>>) -> ParsedView {
    match globals(args, 1, encode_utf8(DEFAULT_CONFIG_FILE@), encode_utf8(DEFAULT_WORK_DIR@)) {
        Globals::Help => ParsedView::Help(HelpTopic::Main),
        Globals::Version => ParsedView::Version,
        Globals::Fail(text) => ParsedView::Fail(text),
        Globals::Done { at, config, work_dir } => if at >= args.len() {
            ParsedView::Fail("subcommand required (run|stop|resync|cleanup|pbr|status)"@)
        } else {
            match subcommand(args, at) {
                (SubView::Command(command), _) => ParsedView::Cli { config, work_dir, command },
                (SubView::Help, topic) => ParsedView::Help(topic),
                (SubView::Fail(text), _) => ParsedView::Fail(text),
            }
        },
    }
}

/// Copies a byte string.
fn copy_bytes(bytes: &[u8]) -> (r: Vec<u8>)
    ensures
        r@ == bytes@,
{
    let mut out: Vec<u8> = Vec::new();
    out.extend_from_slice(bytes);
    assert(out@ =~= bytes@);
    out
}

/// Reads a subcommand that takes no arguments.
fn parse_bare(args: &[Vec<u8>], i: usize, before: &str, command: Command) -> (r: Result<
    Sub,
    AppError,
>)
    ensures
        sub_view(r) == Some(bare(arg_views(args@), i as int, before@, command)),
{
    if i < args.len() {
        return Err(quoting(before, args[i].as_slice(), "'"));
    }
    Ok(Sub::Command(command))
}

/// The options before the subcommand, or what they call for.
enum GlobalScan {
    Done { at: usize, config: Vec<u8>, work_dir: Vec<u8> },
    Help,
    Version,
}

/// What the result of reading the options before the subcommand stands for.
spec fn globals_view(r: Result<GlobalScan, AppError>) -> Option<Globals> {
    match r {
        Ok(GlobalScan::Done { at, config, work_dir }) => Some(
            Globals::Done { at: at as int, config: config@, work_dir: work_dir@ },
        ),
        Ok(GlobalScan::Help) => Some(Globals::Help),
        Ok(GlobalScan::Version) => Some(Globals::Version),
        Err(e) => match e@ {
            ErrorView::Message(text) => Some(Globals::Fail(text)),
            _ => None,
        },
    }
}

/// Reads the options before the subcommand.
fn parse_globals(args: &[Vec<u8>]) -> (r: Result<GlobalScan, AppError>)
    ensures
        globals_view(r) == Some(
            globals(
                arg_views(args@),
                1,
                encode_utf8(DEFAULT_CONFIG_FILE@),
                encode_utf8(DEFAULT_WORK_DIR@),
            ),
        ),
{
    let ghost all = arg_views(args@);
    let ghost start = globals(
        all,
        1,
        encode_utf8(DEFAULT_CONFIG_FILE@),
        encode_utf8(DEFAULT_WORK_DIR@),
    );
    let mut config = copy_bytes(DEFAULT_CONFIG_FILE.as_bytes());
    let mut work_dir = copy_bytes(DEFAULT_WORK_DIR.as_bytes());
    let mut i: usize = 1;
    while i < args.len()
        invariant_except_break
            start == globals(all, i as int, config@, work_dir@),
        invariant
            all == arg_views(args@),
            start == globals(
                all,
                1,
                encode_utf8(DEFAULT_CONFIG_FILE@),
                encode_utf8(DEFAULT_WORK_DIR@),
            ),
        ensures
            start == (Globals::Done { at: i as int, config: config@, work_dir: work_dir@ }),
        decreases args@.len() - i,
    {
        let arg = args[i].as_slice();
        assert(arg@ == all[i as int]);
        if arg_is(arg, "-c") || arg_is(arg, "--config") {
            i = i + 1;
            let value = match next_required(args, i, "-c/--config requires a value") {
                Ok(value) => value,
                Err(e) => return Err(e),
            };
            assert(value@ == all[i as int]);
            config = copy_bytes(value);
            i = i + 1;
        } else if arg_is(arg, "-d") || arg_is(arg, "--work-dir") {
            i = i + 1;
            let value = match next_required(args, i, "-d/--work-dir requires a value") {
                Ok(value) => value,
                Err(e) => return Err(e),
            };
            assert(value@ == all[i as int]);
            work_dir = copy_bytes(value);
            i = i + 1;
        } else if arg_asks_help(arg) {
            return Ok(GlobalScan::Help);
        } else if arg_is(arg, "-v") || arg_is(arg, "--version") {
            return Ok(GlobalScan::Version);
        } else {
            break ;
        }
    }
    Ok(GlobalScan::Done { at: i, config, work_dir })
}

/// Reads a command line. Its first argument is the name of the program.
pub fn parse_args(args: &[Vec<u8>]) -> (r: Result<Parsed, AppError>)
    ensures
        parsed_view(r) == Some(parsed(arg_views(args@))),
{
    let ghost all = arg_views(args@);
    let (i, config, work_dir) = match parse_globals(args) {
        Ok(GlobalScan::Done { at, config, work_dir }) => (at, config, work_dir),
        Ok(GlobalScan::Help) => return Ok(Parsed::Help(HelpTopic::Main)),
        Ok(GlobalScan::Version) => return Ok(Parsed::Version),
        Err(e) => return Err(e),
    };
    let sub = match next_required(
        args,
        i,
        "subcommand required (run|stop|resync|cleanup|pbr|status)",
    ) {
        Ok(sub) => sub,
        Err(e) => return Err(e),
    };
    let count: usize = args.len();
    assert(i < count);
    assert(sub@ == all[i as int]);
    let next: usize = i + 1;
    let (found, topic) = if arg_is(sub, "run") {
        (parse_run_command(args, next), HelpTopic::Run)
    } else if arg_is(sub, "stop") {
        (parse_bare(args, next, "stop: unknown option '", Command::Stop), HelpTopic::Main)
    } else if arg_is(sub, "resync") {
        (parse_bare(args, next, "resync: unknown option '", Command::Resync), HelpTopic::Main)
    } else if arg_is(sub, "cleanup") {
        (parse_cleanup_command(args, next), HelpTopic::Cleanup)
    } else if arg_is(sub, "pbr") {
        (parse_pbr_command(args, next), HelpTopic::Pbr)
    } else if arg_is(sub, "status") {
        (parse_bare(args, next, "status: unknown option '", Command::Status), HelpTopic::Main)
    } else {
        return Err(
            quoting(
                "unknown subcommand '",
                sub,
                "' (expected run|stop|resync|cleanup|pbr|status)",
            ),
        );
    };
    match found {
        Ok(Sub::Command(command)) => Ok(Parsed::Cli(Cli { config, work_dir, command })),
        Ok(Sub::Help) => Ok(Parsed::Help(topic)),
        Err(e) => Err(e),
    }
}

/// Every accepted request of `pbr` has a mask, a table and a priority.
pub proof fn accepted_pbr_request_is_valid(args: Seq<Seq<u8>>)
    ensures
        parsed(args) matches ParsedView::Cli { command: Command::Pbr { request }, .. }
            ==> request.mask != 0 && request.table != 0 && request.pref != 0,
{
    if let Globals::Done { at, .. } = globals(
        args,
        1,
        encode_utf8(DEFAULT_CONFIG_FILE@),
        encode_utf8(DEFAULT_WORK_DIR@),
    ) {
        if at < args.len() {
            lemma_run_args_command(args, at + 1, false);
            lemma_cleanup_args_command(args, at + 1, CleanupMode::Dump);
        }
    }
}

/// `run` leads to the command of that name only.
proof fn lemma_run_args_command(args: Seq<Seq<u8>>, i: int, daemon: bool)
    ensures
        run_args(args, i, daemon) matches SubView::Command(c) ==> c is Run,
    decreases args.len() - i,
{
    if i < args.len() {
        lemma_run_args_command(args, i + 1, true);
    }
}

/// `cleanup` leads to the command of that name only.
proof fn lemma_cleanup_args_command(args: Seq<Seq<u8>>, i: int, mode: CleanupMode)
    ensures
        cleanup_args(args, i, mode) matches SubView::Command(c) ==> c is Cleanup,
    decreases args.len() - i,
{
    if i + 1 < args.len() {
        lemma_cleanup_args_command(args, i + 2, CleanupMode::Owned);
        lemma_cleanup_args_command(args, i + 2, CleanupMode::Dump);
    }
}

} // verus!
