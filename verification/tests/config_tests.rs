use addrsyncd::config::{
    accept_cidrs, accept_ips, cidr_address, config_file, parse_cidr, parse_cidr_list,
    parse_ignore_flag_mask, parse_ip_list, read_failed, Options, RawConfig,
};
use addrsyncd::error::AppError;
use addrsyncd::ip_key::{parse_ip, IpAddr};
use addrsyncd::logger::Level;
use addrsyncd::toml::{
    has_lone_quote, parse_array, parse_err, parse_value, strip_comment, unescape_string, TomlValue,
};

fn base_config() -> String {
    r#"
[daemon]
ipv6 = true
debounce_ms = 500
debounce_max_ms = 5000
batch_max = 128

[log]
level = "info"
file = "logs/addrsyncd.log"

[rule]
pref = 1900
table_id = 254

[filters]
ignore_addr_flags = ["temporary"]
ignore_ips = ["10.0.0.9"]
ignore_cidrs = ["10.0.0.0/8"]
"#
    .to_string()
}

fn load(text: &str) -> Result<Options, AppError> {
    let (dir, path) = config_file(b"addrsyncd.toml", b"/work")?;
    assert!(!has_lone_quote(text));
    let raw = RawConfig::read(text, &path)?;
    Options::load(raw, dir, path)
}

fn refusal(text: &str) -> String {
    match load(text) {
        Ok(_) => panic!("must fail"),
        Err(e) => e.to_text(),
    }
}

fn loaded(text: &str) -> Options {
    match load(text) {
        Ok(opts) => opts,
        Err(e) => panic!("{}", e.to_text()),
    }
}

#[test]
fn load_options_success() {
    let opts = loaded(&base_config());
    assert_eq!(opts.pref, 1900);
    assert_eq!(opts.table_id, 254);
    assert_eq!(opts.batch_max, 128);
    assert_eq!(opts.ignore_ips.len(), 1);
    assert_eq!(opts.ignore_cidrs.len(), 1);
    assert_eq!(opts.log_file, b"/work/logs/addrsyncd.log".to_vec());
}

#[test]
fn load_options_supports_absolute_log_path() {
    let config = base_config().replace(
        r#"file = "logs/addrsyncd.log""#,
        "file = '/var/tmp/abs.log'",
    );
    assert_eq!(loaded(&config).log_file, b"/var/tmp/abs.log".to_vec());
}

#[test]
fn load_options_rejects_empty_log_file() {
    let broken = base_config().replace("file = \"logs/addrsyncd.log\"", "file = \"\"");
    assert!(refusal(&broken).contains("log.file must not be empty"));
}

#[test]
fn load_options_rejects_non_cidr_in_ignore_cidrs() {
    let broken = base_config().replace("10.0.0.0/8", "10.0.0.9");
    assert!(refusal(&broken).contains("invalid cidr"));
}

#[test]
fn load_options_missing_required_key() {
    let broken = base_config().replace("table_id = 254\n", "");
    assert!(refusal(&broken).contains("missing required key"));
}

#[test]
fn load_options_invalid_values() {
    let broken = base_config().replace("debounce_ms = 500", "debounce_ms = 0");
    assert!(refusal(&broken).contains("debounce_ms must be positive"));
}

#[test]
fn load_options_rejects_unknown_keys() {
    let mut config = base_config();
    config.push_str("\n[unknown]\nfoo = 1\n");
    assert!(refusal(&config).contains("parse config failed"));
}

#[test]
fn load_options_rejects_legacy_daemon_log_fields() {
    let config = base_config().replace("[daemon]\n", "[daemon]\nlog_level = \"info\"\n");
    assert!(refusal(&config).contains("unknown field"));
}

#[test]
fn load_options_rejects_log_level_aliases() {
    let config = base_config().replace("level = \"info\"", "level = \"d\"");
    assert!(refusal(&config).contains("log.level"));
}

#[test]
fn load_options_rejects_ignore_flag_aliases() {
    let config = base_config().replace(
        "ignore_addr_flags = [\"temporary\"]",
        "ignore_addr_flags = [\"stable-privacy\"]",
    );
    assert!(refusal(&config).contains("filters.ignore_addr_flags invalid value"));
}

#[test]
fn load_options_rejects_empty_filter_values() {
    let config = base_config().replace(
        "ignore_addr_flags = [\"temporary\"]",
        "ignore_addr_flags = [\"\"]",
    );
    assert!(refusal(&config).contains("must not contain empty value"));
}

#[test]
fn load_options_rejects_duplicate_filter_values() {
    let config = base_config().replace(
        "ignore_ips = [\"10.0.0.9\"]",
        "ignore_ips = [\"10.0.0.9\", \"10.0.0.9\"]",
    );
    assert!(refusal(&config).contains("duplicate ip"));
}

#[test]
fn load_options_rejects_duplicate_cidr_values() {
    let config = base_config().replace(
        "ignore_cidrs = [\"10.0.0.0/8\"]",
        "ignore_cidrs = [\"10.0.0.0/8\", \"10.0.0.0/8\"]",
    );
    assert!(refusal(&config).contains("duplicate cidr"));
}

#[test]
fn load_options_rejects_legacy_rule_table_name() {
    let config = base_config().replace("table_id = 254", "table = \"main\"");
    let text = refusal(&config);
    assert!(text.contains("unknown field"));
    assert!(text.contains("table"));
}

#[test]
fn strip_comment_keeps_hash_inside_quotes() {
    let line = r#"key = "a#b" # tail"#;
    assert_eq!(strip_comment(line).trim_end(), r#"key = "a#b""#);
}

#[test]
fn strip_comment_handles_escaped_quote_in_double_quotes() {
    let line = r##"key = "a\"#b" # tail"##;
    assert_eq!(strip_comment(line).trim_end(), r##"key = "a\"#b""##);
}

#[test]
fn strip_comment_knows_single_quotes() {
    assert_eq!(strip_comment("k = 'a#\\' # b"), "k = 'a#\\' ");
    assert_eq!(strip_comment("no comment"), "no comment");
    assert_eq!(strip_comment("#all"), "");
    let once = strip_comment("k = 1 # x # y");
    assert_eq!(strip_comment(once), once);
}

#[test]
fn loaded_values_are_exact() {
    let config = base_config()
        .replace("debounce_max_ms = 5000", "debounce_max_ms = 100")
        .replace("[\"temporary\"]", "[\"temporary\", 'deprecated',]")
        .replace("level = \"info\"", "level = 'debug' # noisy")
        .replace("pref = 1900", "pref = 4294967297");
    let opts = loaded(&config);
    assert!(opts.ipv6);
    assert_eq!(opts.debounce_ms, 500);
    assert_eq!(opts.debounce_max_ms, 500);
    assert_eq!(opts.ignore_addr_flag_mask, 0x01 | 0x20);
    assert_eq!(opts.log_level, Level::Debug);
    assert_eq!(opts.pref, 1);
    assert_eq!(opts.work_dir, b"/work".to_vec());
    assert_eq!(opts.config_path, b"/work/addrsyncd.toml".to_vec());
    assert!(matches!(opts.ignore_ips[0], IpAddr::V4([10, 0, 0, 9])));
    assert!(matches!(opts.ignore_cidrs[0], (IpAddr::V4([10, 0, 0, 0]), 8)));
}

#[test]
fn errors_of_the_file_name_the_line() {
    let text = |s: &str| refusal(s);
    assert_eq!(
        text("[daemon\n"),
        "config: parse config failed (/work/addrsyncd.toml): config: line 1: malformed section header"
    );
    assert!(text("\n[ ]\n").contains("line 2: empty section name"));
    assert!(text("a = 1\n").contains("line 1: key outside of section"));
    assert!(text("[x]\nnothing\n").contains("line 2: expected key = value"));
    assert!(text("[x]\n = 1\n").contains("line 2: empty key"));
    assert!(text("[x]\na =\n").contains("line 2: empty value"));
    assert!(text("[x]\na = \"\n").contains("line 2: malformed string"));
    assert!(text("[x]\na = [\"b\"\n").contains("line 2: unterminated array"));
    assert!(text("[x]\na = [b]\n").contains("line 2: array elements must be quoted strings"));
    assert!(text("[x]\na = b\n").contains("line 2: cannot parse value: b"));
    assert!(text("[x]\na = 1\r\na = 2\n").contains("line 3: duplicate key 'a' in [x]"));
    assert!(text("").contains("missing [daemon] section"));
}

#[test]
fn values_of_the_wrong_kind_are_refused() {
    let with = |from: &str, to: &str| refusal(&base_config().replace(from, to));
    assert!(with("ipv6 = true", "ipv6 = 1").contains("daemon.ipv6 must be a boolean"));
    assert!(with("batch_max = 128", "batch_max = 'x'").contains("daemon.batch_max must be an integer"));
    assert!(with("batch_max = 128", "batch_max = -1").contains("daemon.batch_max must be non-negative"));
    assert!(with("batch_max = 128", "batch_max = 0").contains("daemon.batch_max must be positive"));
    assert!(with("pref = 1900", "pref = 0").contains("rule.pref must be positive"));
    assert!(with("table_id = 254", "table_id = 0").contains("rule.table_id must be positive"));
    assert!(with("debounce_max_ms = 5000", "debounce_max_ms = 0").contains("daemon.debounce_max_ms must be positive"));
    assert!(with("level = \"info\"", "level = 3").contains("log.level must be a string"));
    assert!(with("ignore_ips = [\"10.0.0.9\"]", "ignore_ips = 'x'").contains("filters.ignore_ips must be an array"));
    assert!(with("10.0.0.9", "ten").contains("filters.ignore_ips invalid ip: ten"));
    assert!(with("10.0.0.0/8", "10.0.0.0/33").contains("filters.ignore_cidrs invalid cidr: 10.0.0.0/33"));
    assert!(with("\"10.0.0.9\"", "\"\"").contains("filters.ignore_ips must not contain empty value"));
    assert!(with("\"10.0.0.0/8\"", "\"\"").contains("filters.ignore_cidrs must not contain empty value"));
    assert!(with("[\"temporary\"]", "[\"temporary\", \"temporary\"]").contains("duplicate value: temporary"));
}

#[test]
fn filters_may_be_left_out() {
    let config = base_config()
        .replace("ignore_addr_flags = [\"temporary\"]\n", "")
        .replace("ignore_ips = [\"10.0.0.9\"]\n", "")
        .replace("ignore_cidrs = [\"10.0.0.0/8\"]\n", "");
    let opts = loaded(&config);
    assert_eq!(opts.ignore_addr_flag_mask, 0);
    assert_eq!(opts.ignore_ips.len(), 0);
    assert_eq!(opts.ignore_cidrs.len(), 0);
}

#[test]
fn a_section_may_be_continued() {
    let config = base_config().replace("batch_max = 128\n", "") + "\n[daemon]\nbatch_max = 7\n";
    assert_eq!(loaded(&config).batch_max, 7);
}

#[test]
fn values_are_read() {
    assert!(matches!(parse_value("true", 0), Ok(TomlValue::Bool(true))));
    assert!(matches!(parse_value("false", 0), Ok(TomlValue::Bool(false))));
    assert!(matches!(parse_value("-12", 0), Ok(TomlValue::Int(-12))));
    assert!(matches!(parse_value("9223372036854775807", 0), Ok(TomlValue::Int(i64::MAX))));
    assert!(parse_value("9223372036854775808", 0).is_err());
    match parse_value("\"a\\tb\"", 0) {
        Ok(TomlValue::Str(s)) => assert_eq!(s, "a\tb"),
        _ => panic!("no text"),
    }
    match parse_array("[ 'x', \"y\" , ]", 0) {
        Ok(TomlValue::Array(items)) => assert_eq!(items, vec!["x".to_string(), "y".to_string()]),
        _ => panic!("no list"),
    }
}

#[test]
fn backslashes_are_replaced() {
    assert_eq!(unescape_string("a\\nb\\\\c\\\"d\\'e"), "a\nb\\c\"d'e");
    assert_eq!(unescape_string("\\q\\"), "\\q\\");
}

#[test]
fn lists_with_a_lone_quote_are_found() {
    assert!(has_lone_quote("[x]\na = [\"]\n"));
    assert!(has_lone_quote("[x]\na = ['a', ']\n"));
    assert!(!has_lone_quote("[x]\na = [b, \"]\n"));
    assert!(!has_lone_quote("a = [\"]\n"));
}

#[test]
fn networks_are_read() {
    let ten = Some(IpAddr::V4([10, 0, 0, 0]));
    assert!(matches!(parse_cidr("10.0.0.0/+8", ten), Some((IpAddr::V4([10, 0, 0, 0]), 8))));
    assert!(parse_cidr("10.0.0.0/256", ten).is_none());
    assert!(parse_cidr("10.0.0.0", ten).is_none());
    assert!(parse_cidr("x/8", None).is_none());
    let v6 = Some(IpAddr::V6([0; 16]));
    assert!(matches!(parse_cidr("::/128", v6), Some((IpAddr::V6(_), 128))));
    assert!(parse_cidr("::/129", v6).is_none());
    assert_eq!(cidr_address("a/b/c"), Some("a"));
    assert_eq!(cidr_address("abc"), None);
}

fn texts(list: &[&str]) -> Vec<String> {
    list.iter().map(|s| s.to_string()).collect()
}

#[test]
fn texts_denote_addresses() {
    assert_eq!(parse_ip("192.0.2.9"), Some(IpAddr::V4([192, 0, 2, 9])));
    let mut one = [0u8; 16];
    one[15] = 1;
    assert_eq!(parse_ip("::1"), Some(IpAddr::V6(one)));
    assert_eq!(
        parse_ip("2001:db8::ff"),
        Some(IpAddr::V6([0x20, 1, 0x0d, 0xb8, 0, 0, 0, 0, 0, 0, 0, 0, 0, 0, 0, 0xff]))
    );
    for text in ["", "192.0.2", "192.0.2.256", " 192.0.2.9", "01.2.3.4", "::g", "192.0.2.9/8"] {
        assert_eq!(parse_ip(text), None);
    }
}

#[test]
fn lists_of_addresses_are_read() {
    let ips = parse_ip_list(&texts(&["10.0.0.9", "fe80::1"])).expect("addresses");
    assert_eq!(ips[0], IpAddr::V4([10, 0, 0, 9]));
    assert!(matches!(ips[1], IpAddr::V6(_)));
    match parse_ip_list(&texts(&["::1", "0:0::1"])) {
        Err(e) => assert_eq!(e.to_text(), "config: filters.ignore_ips duplicate ip: 0:0::1"),
        Ok(_) => panic!("must fail"),
    }
    let cidrs = parse_cidr_list(&texts(&["10.0.0.0/8", "::/0", "10.0.0.0/9"])).expect("networks");
    assert_eq!(cidrs[0], (IpAddr::V4([10, 0, 0, 0]), 8));
    assert_eq!(cidrs[1], (IpAddr::V6([0; 16]), 0));
    assert_eq!(cidrs[2].1, 9);
    match parse_cidr_list(&texts(&["::/8", "0::/8"])) {
        Err(e) => assert_eq!(e.to_text(), "config: filters.ignore_cidrs duplicate cidr: 0::/8"),
        Ok(_) => panic!("must fail"),
    }
    assert!(parse_cidr_list(&texts(&["ten/8"])).is_err());
    assert!(parse_cidr_list(&texts(&["10.0.0.0"])).is_err());

    let ten = Some(IpAddr::V4([10, 0, 0, 0]));
    assert_eq!(accept_ips(&texts(&["a"]), &[ten]).expect("one").len(), 1);
    assert!(accept_ips(&texts(&["a"]), &[None]).is_err());
    assert!(accept_ips(&texts(&["a", "b"]), &[ten, ten]).is_err());
    assert_eq!(accept_cidrs(&texts(&["a/1"]), &[ten]).expect("one")[0].1, 1);
    assert!(accept_cidrs(&texts(&["a/1"]), &[None]).is_err());
}

#[test]
fn every_flag_has_its_bit() {
    let words = [
        ("temporary", 0x01),
        ("optimistic", 0x04),
        ("dadfailed", 0x08),
        ("deprecated", 0x20),
        ("tentative", 0x40),
        ("managetempaddr", 0x100),
        ("stable_privacy", 0x800),
    ];
    let mut all = Vec::new();
    let mut mask = 0u32;
    for (word, bit) in words {
        assert!(matches!(parse_ignore_flag_mask(&[word.to_string()]), Ok(b) if b == bit));
        all.push(word.to_string());
        mask |= bit;
    }
    assert!(matches!(parse_ignore_flag_mask(&all), Ok(b) if b == mask));
}

#[test]
fn paths_must_not_be_empty() {
    match config_file(b"x", b"") {
        Err(e) => assert_eq!(e.to_text(), "config: work_dir must not be empty"),
        Ok(_) => panic!("must fail"),
    }
    match config_file(b"", b"/w") {
        Err(e) => assert_eq!(e.to_text(), "config: config path must not be empty"),
        Ok(_) => panic!("must fail"),
    }
    match config_file(b"/etc/x", b"/w") {
        Ok((dir, path)) => assert_eq!((dir, path), (b"/w".to_vec(), b"/etc/x".to_vec())),
        Err(_) => panic!("must pass"),
    }
}

#[test]
fn errors_show_the_path_of_the_file() {
    assert_eq!(
        read_failed(b"/a/\xFFb", "gone").to_text(),
        "config: read config failed (/a/\u{FFFD}b): gone"
    );
    assert_eq!(parse_err(4, "odd").to_text(), "config: line 5: odd");
}
