use addrsyncd::app::{run_cli, Task};
use addrsyncd::cli::{
    main_usage, parse_args, render_arg, CleanupMode, Cli, Command, HelpTopic, Parsed, PbrAction,
    PbrFamily, CLEANUP_USAGE, PBR_USAGE, RUN_USAGE,
};
use addrsyncd::daemon::state::CleanupSource;
use addrsyncd::error::AppError;

fn parse(args: &[&str]) -> Result<Parsed, AppError> {
    let args: Vec<Vec<u8>> = args.iter().map(|a| a.as_bytes().to_vec()).collect();
    parse_args(&args)
}

fn cli(args: &[&str]) -> Cli {
    match parse(args) {
        Ok(Parsed::Cli(cli)) => cli,
        Ok(_) => panic!("no command"),
        Err(e) => panic!("{}", e.to_text()),
    }
}

fn failure(args: &[&str]) -> String {
    match parse(args) {
        Ok(_) => panic!("must fail"),
        Err(e) => e.to_text(),
    }
}

#[test]
fn parse_run_with_global_paths_and_daemon() {
    let cli = cli(&[
        "addrsyncd",
        "-c",
        "conf/addrsyncd.toml",
        "-d",
        "/data/local/tmp",
        "run",
        "--daemon",
    ]);

    assert_eq!(cli.config, b"conf/addrsyncd.toml".to_vec());
    assert_eq!(cli.work_dir, b"/data/local/tmp".to_vec());
    match cli.command {
        Command::Run { daemon } => assert!(daemon),
        _ => panic!("unexpected command"),
    }
}

#[test]
fn parse_cleanup_mode_default_is_dump() {
    match cli(&["addrsyncd", "cleanup"]).command {
        Command::Cleanup { mode } => assert_eq!(mode, CleanupMode::Dump),
        _ => panic!("unexpected command"),
    }
}

#[test]
fn parse_cleanup_mode_tracked() {
    match cli(&["addrsyncd", "cleanup", "--mode", "tracked"]).command {
        Command::Cleanup { mode } => assert_eq!(mode, CleanupMode::Owned),
        _ => panic!("unexpected command"),
    }
}

#[test]
fn parse_stop_uses_default_work_dir() {
    let cli = cli(&["addrsyncd", "stop"]);
    assert_eq!(cli.work_dir, b".".to_vec());
    match cli.command {
        Command::Stop => {}
        _ => panic!("unexpected command"),
    }
}

#[test]
fn parse_rejects_unknown_subcommand() {
    let rendered = failure(&["addrsyncd", "start"]);
    assert!(rendered.contains("unknown subcommand"));
    assert!(rendered.contains("start"));
}

#[test]
fn parse_pbr_apply_with_masked_mark() {
    let cli = cli(&[
        "addrsyncd",
        "pbr",
        "apply",
        "--family",
        "4",
        "--mark",
        "0x14",
        "--mask",
        "0xff",
        "--table",
        "2025",
        "--pref",
        "2025",
    ]);

    match cli.command {
        Command::Pbr { request } => {
            assert_eq!(request.action, PbrAction::Apply);
            assert_eq!(request.family, PbrFamily::Ipv4);
            assert_eq!(request.mark, 0x14);
            assert_eq!(request.mask, 0xff);
            assert_eq!(request.table, 2025);
            assert_eq!(request.pref, 2025);
        }
        _ => panic!("unexpected command"),
    }
}

#[test]
fn cli_rejects_removed_start_subcommand() {
    let text = failure(&["addrsyncd", "start"]);
    assert!(text.contains("unknown subcommand"));
    assert!(text.contains("start"));
}

#[test]
fn cli_help_contains_run_and_cleanup_modes() {
    assert!(matches!(
        parse(&["addrsyncd", "--help"]),
        Ok(Parsed::Help(HelpTopic::Main))
    ));
    let usage = main_usage("1.2.3");
    assert!(usage.contains("run"));
    assert!(usage.contains("cleanup"));
    assert!(usage.contains("pbr"));
    assert!(usage.contains("-c"));
    assert!(usage.contains("-d"));
    assert!(usage.contains("1.2.3"));
}

#[test]
fn run_help_contains_daemon_flag() {
    assert!(matches!(
        parse(&["addrsyncd", "run", "--help"]),
        Ok(Parsed::Help(HelpTopic::Run))
    ));
    assert!(RUN_USAGE.contains("--daemon"));
}

#[test]
fn cleanup_help_contains_mode_values() {
    assert!(matches!(
        parse(&["addrsyncd", "cleanup", "--help"]),
        Ok(Parsed::Help(HelpTopic::Cleanup))
    ));
    assert!(CLEANUP_USAGE.contains("tracked"));
    assert!(CLEANUP_USAGE.contains("dump"));
}

#[test]
fn pbr_help_contains_mark_mask_options() {
    assert!(matches!(
        parse(&["addrsyncd", "pbr", "--help"]),
        Ok(Parsed::Help(HelpTopic::Pbr))
    ));
    assert!(PBR_USAGE.contains("--mark"));
    assert!(PBR_USAGE.contains("--mask"));
    assert!(PBR_USAGE.contains("--table"));
    assert!(PBR_USAGE.contains("--pref"));
}

#[test]
fn version_is_asked_for() {
    assert!(matches!(parse(&["addrsyncd", "--version"]), Ok(Parsed::Version)));
}

#[test]
fn defaults_are_filled_in() {
    let cli = cli(&["addrsyncd", "status"]);
    assert_eq!(cli.config, b"addrsyncd.toml".to_vec());
    assert_eq!(cli.work_dir, b".".to_vec());
    assert_eq!(cli.command, Command::Status);
}

#[test]
fn options_without_their_value_are_refused() {
    assert!(failure(&["addrsyncd", "-c"]).len() > 0);
    assert!(failure(&["addrsyncd", "cleanup", "--mode"]).len() > 0);
    assert!(failure(&["addrsyncd", "cleanup", "--mode", "all"]).contains("all"));
    assert!(failure(&["addrsyncd", "pbr", "apply", "--mark", "0xzz"]).len() > 0);
    assert!(failure(&["addrsyncd", "run", "--verbose"]).contains("--verbose"));
}

#[test]
fn arguments_that_are_no_text_are_shown_with_replacements() {
    let args: Vec<Vec<u8>> = vec![b"addrsyncd".to_vec(), vec![b'a', 0xFF, b'b']];
    match parse_args(&args) {
        Err(e) => assert!(e.to_text().contains("a\u{FFFD}b")),
        Ok(_) => panic!("must fail"),
    }
}

#[test]
fn accepted_pbr_requests_have_mask_table_and_pref() {
    let with = |mask: &'static str, table: &'static str, pref: &'static str| {
        vec![
            "addrsyncd", "pbr", "cleanup", "--family", "6", "--mark", "16", "--mask", mask,
            "--table", table, "--pref", pref,
        ]
    };
    assert_eq!(failure(&with("0", "100", "200")), "pbr: --mask must be non-zero");
    assert_eq!(
        failure(&with("16", "0", "200")),
        "pbr: --table and --pref must be positive"
    );
    assert_eq!(
        failure(&with("16", "100", "0")),
        "pbr: --table and --pref must be positive"
    );
    match cli(&with("16", "100", "200")).command {
        Command::Pbr { request } => {
            assert_eq!(request.action, PbrAction::Cleanup);
            assert_eq!(request.family, PbrFamily::Ipv6);
            assert_eq!(request.mark, 16);
            assert_eq!(request.table, 100);
            assert_eq!(request.pref, 200);
        }
        _ => panic!("unexpected command"),
    }
    assert_eq!(
        failure(&["addrsyncd", "pbr", "apply", "--family", "4"]),
        "pbr: --mark is required"
    );
}

#[test]
fn commands_become_tasks() {
    match run_cli(cli(&["addrsyncd", "-d", "/w", "run"])) {
        Task::RunDaemon(paths) => assert_eq!(paths.work_dir, b"/w".to_vec()),
        _ => panic!("unexpected task"),
    }
    match run_cli(cli(&["addrsyncd", "-c", "x.toml", "run", "--daemon"])) {
        Task::StartBackground(paths) => assert_eq!(paths.config, b"x.toml".to_vec()),
        _ => panic!("unexpected task"),
    }
    assert!(matches!(run_cli(cli(&["addrsyncd", "stop"])), Task::StopBackground(_)));
    assert!(matches!(run_cli(cli(&["addrsyncd", "resync"])), Task::SignalResync(_)));
    assert!(matches!(run_cli(cli(&["addrsyncd", "status"])), Task::PrintStatus(_)));
    match run_cli(cli(&["addrsyncd", "cleanup", "--mode", "tracked"])) {
        Task::CleanupOnce(_, source) => assert_eq!(source, CleanupSource::Owned),
        _ => panic!("unexpected task"),
    }
    match run_cli(cli(&["addrsyncd", "cleanup"])) {
        Task::CleanupOnce(_, source) => assert_eq!(source, CleanupSource::Dump),
        _ => panic!("unexpected task"),
    }
}

#[test]
fn arguments_are_shown_as_text() {
    assert_eq!(render_arg("gr\u{fc}n".as_bytes()), "gr\u{fc}n");
    assert_eq!(render_arg(b"a\xFF"), "a\u{FFFD}");
}
