use addrsyncd::logger::{
    append_key, append_quoted_text, append_value, build_line_into, collect_missing_required_fields,
    needs_quote, netlink_addr_event_fields, push_padded, rule_ack_failed_fields, rule_batch_fields,
    schema_violation, Field, FieldValue, Level, LocalTime, LogEventSchema, Logger,
    NetlinkAddrEvent, RateLimiter, RuleAckFailedEvent, RuleBatchEvent, TimestampCache,
    RATE_LIMIT_SLOTS, SOFT_FLUSH_BYTES, SOFT_FLUSH_INTERVAL, UNKNOWN_TIME,
};

#[test]
fn parse_level_exact_values() {
    assert!(matches!(Level::parse("error"), Ok(Level::Error)));
    assert!(matches!(Level::parse("warn"), Ok(Level::Warn)));
    assert!(matches!(Level::parse("info"), Ok(Level::Info)));
    assert!(matches!(Level::parse("debug"), Ok(Level::Debug)));
}

#[test]
fn parse_level_rejects_aliases() {
    assert!(Level::parse("err").is_err());
    assert!(Level::parse("warning").is_err());
    assert!(Level::parse("d").is_err());
    assert!(Level::parse("INFO").is_err());
}

fn quoted(text: &str) -> String {
    let mut out = String::from("x=");
    append_quoted_text(&mut out, text);
    out
}

#[test]
fn different_texts_look_different() {
    let texts = ["", "\"\"", "a\nb", "a\\nb", "a\\\nb", "a b", "\"a b\"", "n", "\\"];
    for (i, a) in texts.iter().enumerate() {
        for b in &texts[i + 1..] {
            assert_ne!(quoted(a), quoted(b));
        }
    }
}

#[test]
fn texts_are_quoted_where_needed() {
    assert_eq!(quoted("plain"), "x=plain");
    assert_eq!(quoted(""), "x=\"\"");
    assert_eq!(quoted("a b"), "x=\"a b\"");
    assert_eq!(quoted("a\"\\\n\r\tb"), "x=\"a\\\"\\\\\\n\\r\\tb\"");
    assert_eq!(quoted("\u{c}"), "x=\"\u{c}\"");
    assert_eq!(quoted("\u{b}\u{e4}"), "x=\u{b}\u{e4}");
    assert!(needs_quote("a\tb"));
    assert!(!needs_quote("a=b"));
}

fn value(v: FieldValue<'_>) -> String {
    let mut out = String::new();
    append_value(&mut out, v);
    out
}

#[test]
fn values_are_written() {
    assert_eq!(value(FieldValue::Bool(true)), "true");
    assert_eq!(value(FieldValue::Bool(false)), "false");
    assert_eq!(value(FieldValue::Usize(0)), "0");
    assert_eq!(value(FieldValue::U64(u64::MAX)), "18446744073709551615");
    assert_eq!(value(FieldValue::U32(70)), "70");
    assert_eq!(value(FieldValue::I32(i32::MIN)), "-2147483648");
    assert_eq!(value(FieldValue::U128(u128::MAX)), u128::MAX.to_string());
    assert_eq!(value(FieldValue::display("a b")), "a b");
}

#[test]
fn keys_are_cleaned() {
    let mut out = String::new();
    assert!(append_key(&mut out, "a-B_9.\u{e4} =z"));
    assert_eq!(out, "a-B_9.____z");
    assert!(!append_key(&mut out, ""));
}

#[test]
fn lines_have_their_form() {
    let fields: [Field<'_>; 3] = [
        ("count", FieldValue::Usize(3)),
        ("", FieldValue::Usize(4)),
        ("why", FieldValue::Str("two\nlines")),
    ];
    let mut line = String::new();
    build_line_into(&mut line, "now", Level::Warn, "some.event", &fields);
    assert_eq!(line, "[now] [W] some.event | count=3 | why=\"two\\nlines\"\n");
    let mut bare = String::new();
    build_line_into(&mut bare, UNKNOWN_TIME, Level::Error, "", &[]);
    assert_eq!(bare, "[1970-01-01 00:00:00.000] [E] log\n");
    assert_eq!(line.matches('\n').count(), 1);
}

#[test]
fn levels_decide_what_is_written() {
    let logger = Logger::new(Level::Info, 0);
    assert!(logger.enabled(Level::Error));
    assert!(logger.enabled(Level::Info));
    assert!(!logger.enabled(Level::Debug));
    assert!(logger.log_line("t", Level::Debug, "e", &[]).is_none());
    assert_eq!(logger.log_line("t", Level::Info, "e", &[]), Some("[t] [I] e\n".to_string()));
}

#[test]
fn time_stamps_are_padded_and_kept() {
    let mut cache = TimestampCache::default();
    assert!(!cache.holds(0));
    let t = LocalTime {
        year: 124,
        mon: 0,
        mday: 5,
        hour: 7,
        min: 8,
        sec: 9,
    };
    cache.keep(77, t);
    assert!(cache.holds(77));
    assert!(!cache.holds(78));
    assert_eq!(cache.stamp(12_345), "2024-01-05 07:08:09.012");
    let mut s = String::new();
    push_padded(&mut s, -5, 4);
    push_padded(&mut s, 12345, 4);
    assert_eq!(s, "-00512345");
}

#[test]
fn repeated_lines_are_held_back() {
    let mut rate = RateLimiter::default();
    assert!(rate.should_log("a", 10, 100));
    assert!(!rate.should_log("a", 10, 109));
    assert!(rate.should_log("b", 10, 109));
    assert!(rate.should_log("a", 10, 110));
    assert!(!rate.should_log("a", 10, 5));

    let mut logger = Logger::new(Level::Info, 0);
    assert!(logger.should_log_now("", 10, 1));
    assert!(logger.should_log_now("", 10, 1));
    assert!(logger.should_log_now("k", 0, 1));
    assert!(logger.should_log_now("k", 0, 1));
    assert!(logger.should_log_now("k", 5, 1));
    assert!(!logger.should_log_now("k", 5, 2));
}

#[test]
fn the_oldest_key_is_forgotten() {
    let keys: [&'static str; 17] = [
        "0", "1", "2", "3", "4", "5", "6", "7", "8", "9", "10", "11", "12", "13", "14", "15", "16",
    ];
    let mut rate = RateLimiter::default();
    for (i, key) in keys.iter().enumerate() {
        let at = if i == 3 { 1 } else { 50 + i as u64 };
        assert!(rate.should_log(key, 1000, at));
    }
    assert_eq!(rate.entries.len(), RATE_LIMIT_SLOTS);
    assert!(!rate.should_log("0", 1000, 100));
    assert!(!rate.should_log("16", 1000, 100));
    assert!(rate.should_log("3", 1000, 100));
}

#[test]
fn lines_are_flushed_by_level_size_and_time() {
    let mut logger = Logger::new(Level::Info, 0);
    assert!(logger.should_flush(Level::Error, 1, 0));
    assert!(logger.should_flush(Level::Warn, 1, 0));
    assert_eq!(logger.flush_state.buffered_bytes, 0);
    assert!(!logger.should_flush(Level::Info, SOFT_FLUSH_BYTES - 1, 0));
    assert!(logger.should_flush(Level::Info, 1, 0));
    logger.flush_state.mark_flushed(7);
    assert!(!logger.should_flush(Level::Info, 1, 6 + SOFT_FLUSH_INTERVAL));
    assert!(logger.should_flush(Level::Info, 1, 7 + SOFT_FLUSH_INTERVAL));
    let mut noisy = Logger::new(Level::Debug, 0);
    assert!(noisy.should_flush(Level::Info, 1, 0));
}

#[test]
fn events_carry_their_fields() {
    let batch = rule_batch_fields(&RuleBatchEvent {
        batch_id: 1,
        count_input: 2,
        count_add: 3,
        count_del: 4,
        count_noop: 5,
        count_failed: 6,
        duration_ms: 7,
    });
    assert!(schema_violation(LogEventSchema::RuleBatch, &batch).is_none());
    let mut line = String::new();
    build_line_into(&mut line, "t", Level::Info, LogEventSchema::RuleBatch.event(), &batch);
    assert_eq!(
        line,
        "[t] [I] rule.batch | batch_id=1 | count_input=2 | count_add=3 | count_del=4 | count_noop=5 | count_failed=6 | duration_ms=7\n"
    );

    let failed = rule_ack_failed_fields(RuleAckFailedEvent {
        batch_id: 1,
        seq: 2,
        errno: 3,
        op_action: "add",
        op_addr: "10.0.0.1",
        ext_msg: Some("no way"),
        ext_offset: Some(4),
    });
    assert_eq!(failed.len(), 7);
    assert!(schema_violation(LogEventSchema::RuleAckFailed, &failed).is_none());
    let bare = rule_ack_failed_fields(RuleAckFailedEvent {
        batch_id: 1,
        seq: 2,
        errno: 3,
        op_action: "add",
        op_addr: "10.0.0.1",
        ext_msg: None,
        ext_offset: None,
    });
    assert_eq!(bare.len(), 5);

    let event = netlink_addr_event_fields(NetlinkAddrEvent {
        nlmsg_type: 20,
        nlmsg_seq: 1,
        family: 2,
        ifindex: 3,
        addr: "10.0.0.1",
        flags: 0,
        op_action: "add",
    });
    assert!(schema_violation(LogEventSchema::NetlinkAddrEvent, &event).is_none());
}

#[test]
fn missing_fields_are_named() {
    let fields: [Field<'_>; 1] = [("b", FieldValue::Usize(1))];
    assert_eq!(collect_missing_required_fields(&["a", "b", "c"], &fields), vec!["a", "c"]);
    assert_eq!(
        schema_violation(LogEventSchema::RuleAckFailed, &[("seq", FieldValue::U32(1))]),
        Some("batch_id,errno,op_action,op_addr".to_string())
    );
}
