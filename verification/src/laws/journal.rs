//! Which lines the log holds, how they are written, and when they reach the file.
use crate::logger::{
    ack_failed_list, buffered_after, comma_joined, escaped, escaped_char, field_text, fields_text,
    flush_is_due, key_char, key_text, level_rank, level_tag, line_text, missing_fields, oldest,
    padded, place_of, quote_needed, quoted_char, rate_allows, rates_after, schema_event,
    schema_fields, since, time_text, value_text, Field, FieldValue, FlushState, Level, LocalTime,
    LogEventSchema, Rate, RuleAckFailedEvent,
};
use crate::text::{dec, dec_signed};
use vstd::prelude::*;
use vstd::utf8::encode_utf8;

verus! {

// ---------------------------------------------------------------------------
// Lines
// ---------------------------------------------------------------------------

/// An error is more important than a warning, that than an information, and that than a detail;
/// each has its own letter.
pub proof fn levels_are_ordered()
    ensures
        level_rank(Level::Error) < level_rank(Level::Warn) < level_rank(Level::Info) < level_rank(
            Level::Debug,
        ),
        level_tag(Level::Error) == seq!['E'],
        level_tag(Level::Warn) == seq!['W'],
        level_tag(Level::Info) == seq!['I'],
        level_tag(Level::Debug) == seq!['D'],
{
    reveal_strlit("E");
    reveal_strlit("W");
    reveal_strlit("I");
    reveal_strlit("D");
    assert("E"@ =~= seq!['E']);
    assert("W"@ =~= seq!['W']);
    assert("I"@ =~= seq!['I']);
    assert("D"@ =~= seq!['D']);
}

/// A line is the time in brackets, the letter of the level in brackets, the event, the fields and a
/// line feed. An event without a name is called `log`.
pub proof fn lines_are_made_up_of_parts(
    stamp: Seq<char>,
    level: Level,
    event: Seq<char>,
    fields: Seq<Field<'_>>,
)
    ensures
        ({
            let line = line_text(stamp, level, event, fields);
            let name = if event.len() == 0 {
                seq!['l', 'o', 'g']
            } else {
                event
            };
            line == seq!['['] + stamp + seq![']', ' ', '['] + level_tag(level) + seq![']', ' ']
                + name + fields_text(fields) + seq!['\n']
        }),
{
    reveal_strlit("] [");
    reveal_strlit("] ");
    reveal_strlit("log");
    assert("] ["@ =~= seq![']', ' ', '[']);
    assert("] "@ =~= seq![']', ' ']);
    assert("log"@ =~= seq!['l', 'o', 'g']);
}

/// One more field adds a bar, its key, an equals sign and its value, in the order in which the
/// fields are given; a field without a key adds nothing.
pub proof fn fields_are_written_in_order(fields: Seq<Field<'_>>, field: Field<'_>)
    ensures
        fields_text(Seq::empty()).len() == 0,
        fields_text(fields.push(field)) == fields_text(fields) + field_text(field),
        field.0@.len() == 0 ==> field_text(field).len() == 0,
        key_text(field.0@).len() > 0 ==> field_text(field) == seq![' ', '|', ' '] + key_text(
            field.0@,
        ) + seq!['='] + value_text(field.1),
{
    assert(fields.push(field).drop_last() =~= fields);
    reveal_strlit(" | ");
    assert(" | "@ =~= seq![' ', '|', ' ']);
    if field.0@.len() == 0 {
        assert(encode_utf8(field.0@).len() == 0);
    }
}

/// A key keeps its letters, digits, underlines, hyphens and dots; any other byte becomes an
/// underline.
pub proof fn keys_keep_plain_characters(b: u8, key: Seq<char>)
    ensures
        key_text(key).len() == encode_utf8(key).len(),
        ({
            let c = b as char;
            let plain = ('0' <= c <= '9') || ('A' <= c <= 'Z') || ('a' <= c <= 'z') || c == '_' || c
                == '-' || c == '.';
            &&& plain ==> key_char(b) == c
            &&& !plain ==> key_char(b) == '_'
        }),
{
}

/// Numbers are written in decimal, truth as a word, and texts in quotes where they need them.
pub proof fn values_are_written_by_their_kind(n: u64, i: i32, big: u128, s: &str)
    ensures
        value_text(FieldValue::U64(n)) == dec(n as nat),
        value_text(FieldValue::I32(i)) == dec_signed(i as int),
        value_text(FieldValue::U128(big)) == dec(big as nat),
        value_text(FieldValue::Bool(true)) == "true"@,
        value_text(FieldValue::Bool(false)) == "false"@,
        value_text(FieldValue::Display(s)) == s@,
        !quote_needed(s@) ==> value_text(FieldValue::Str(s)) == s@,
        quote_needed(s@) ==> value_text(FieldValue::Str(s)) == seq!['"'] + escaped(s@) + seq!['"'],
{
}

/// A text needs quotes if and only if it is empty or holds white space, a quote or a backslash; in
/// quotes, the characters that would end the text or the line are escaped, and the others stay.
pub proof fn texts_are_quoted_where_needed(s: Seq<char>, c: char)
    ensures
        quote_needed(Seq::empty()),
        quote_needed(s.push(c)) <==> s.len() > 0 && quote_needed(s) || c == ' ' || c == '\t' || c
            == '\n' || c == '\r' || c == '\u{c}' || c == '"' || c == '\\',
        escaped(Seq::empty()).len() == 0,
        escaped(s.push(c)) == escaped(s) + escaped_char(c),
        escaped_char('"') == seq!['\\', '"'],
        escaped_char('\\') == seq!['\\', '\\'],
        escaped_char('\n') == seq!['\\', 'n'],
        escaped_char('\r') == seq!['\\', 'r'],
        escaped_char('\t') == seq!['\\', 't'],
        c != '"' && c != '\\' && c != '\n' && c != '\r' && c != '\t' ==> escaped_char(c) == seq![c],
{
    let all = s.push(c);
    assert(all.drop_last() =~= s);
    assert(all[s.len() as int] == c);
    assert forall|i: int| 0 <= i < s.len() implies all[i] == #[trigger] s[i] by {}
    if s.len() > 0 && quote_needed(s) {
        let i = choose|i: int|
            0 <= i < s.len() && quoted_char(#[trigger] s[i]);
        assert(quoted_char(all[i]));
    }
    if quote_needed(all) {
        let i = choose|i: int|
            0 <= i < all.len() && quoted_char(#[trigger] all[i]);
        if i < s.len() {
            assert(quoted_char(s[i]));
        }
    }
    if quoted_char(c) {
        assert(quoted_char(all[s.len() as int]));
    }
}

/// A number is filled up with zeros to its width, after its sign, and is never cut short.
pub proof fn numbers_are_filled_up(n: int, width: nat)
    requires
        width >= 1,
    ensures
        n >= 0 && dec(n as nat).len() <= width ==> padded(n, width).len() == width,
        n >= 0 && dec(n as nat).len() > width ==> padded(n, width) == dec(n as nat),
        n >= 0 ==> padded(n, width).len() >= dec(n as nat).len() && padded(n, width).skip(
            padded(n, width).len() - dec(n as nat).len(),
        ) == dec(n as nat),
        n >= 0 ==> (forall|i: int|
            0 <= i < padded(n, width).len() - dec(n as nat).len() ==> #[trigger] padded(n, width)[i]
                == '0'),
        n < 0 ==> padded(n, width)[0] == '-',
        n < 0 && dec((-n) as nat).len() < width ==> padded(n, width).len() == width,
        n < 0 ==> padded(n, width).len() > dec((-n) as nat).len() && padded(n, width).skip(
            padded(n, width).len() - dec((-n) as nat).len(),
        ) == dec((-n) as nat),
{
    if n < 0 {
        let digits = dec((-n) as nat);
        let p = padded(n, width);
        assert(p.skip(p.len() - digits.len()) =~= digits);
    }
    if n >= 0 {
        let digits = dec(n as nat);
        let p = padded(n, width);
        assert(p.skip(p.len() - digits.len()) =~= digits);
        if digits.len() > width {
            assert(p =~= digits);
        }
    }
}

/// A time is written as year, month, day, hour, minute and second, the year in full and the month
/// from one on.
pub proof fn times_are_written_in_full(t: LocalTime)
    ensures
        time_text(t) == padded(t.year + 1900, 4) + seq!['-'] + padded(t.mon + 1, 2) + seq!['-']
            + padded(t.mday as int, 2) + seq![' '] + padded(t.hour as int, 2) + seq![':'] + padded(
            t.min as int,
            2,
        ) + seq![':'] + padded(t.sec as int, 2),
{
}

/// The fields that an event lacks are those that it needs and that are not given, in order.
pub proof fn missing_fields_are_named(
    required: Seq<Seq<char>>,
    fields: Seq<Field<'_>>,
    key: Seq<char>,
)
    ensures
        missing_fields(Seq::empty(), fields).len() == 0,
        missing_fields(required.push(key), fields) == (if exists|i: int|
            0 <= i < fields.len() && (#[trigger] fields[i]).0@ == key {
            missing_fields(required, fields)
        } else {
            missing_fields(required, fields).push(key)
        }),
{
    assert(required.push(key).drop_last() =~= required);
}

/// Names are put together with a comma between each two.
pub proof fn names_are_listed_with_commas(parts: Seq<Seq<char>>, part: Seq<char>)
    ensures
        comma_joined(Seq::empty()).len() == 0,
        comma_joined(seq![part]) == part,
        parts.len() > 0 ==> comma_joined(parts.push(part)) == comma_joined(parts) + seq![',']
            + part,
{
    assert(parts.push(part).drop_last() =~= parts);
}

// ---------------------------------------------------------------------------
// Rates
// ---------------------------------------------------------------------------

/// The place of a key is the first entry that has it, or the end where none has.
pub proof fn place_is_the_first_of_its_key(rates: Seq<Rate>, key: Seq<char>)
    ensures
        0 <= place_of(rates, key) <= rates.len(),
        place_of(rates, key) < rates.len() ==> rates[place_of(rates, key)].key == key,
        forall|i: int| 0 <= i < place_of(rates, key) ==> (#[trigger] rates[i]).key != key,
    decreases rates.len(),
{
    if rates.len() > 0 && rates[0].key != key {
        let rest = rates.drop_first();
        place_is_the_first_of_its_key(rest, key);
        assert forall|i: int| 0 <= i < place_of(rates, key) implies (#[trigger] rates[i]).key
            != key by {
            if i > 0 {
                assert(rest[i - 1] == rates[i]);
            }
        }
    }
}

/// The oldest entry is one that no other is older than, and the first of these.
pub proof fn oldest_is_the_least_recent(rates: Seq<Rate>)
    requires
        rates.len() > 0,
    ensures
        0 <= oldest(rates) < rates.len(),
        forall|i: int|
            0 <= i < rates.len() ==> rates[oldest(rates)].at <= (#[trigger] rates[i]).at,
        forall|i: int|
            0 <= i < oldest(rates) ==> rates[oldest(rates)].at < (#[trigger] rates[i]).at,
    decreases rates.len(),
{
    if rates.len() > 1 {
        let fewer = rates.drop_last();
        oldest_is_the_least_recent(fewer);
        assert forall|i: int| 0 <= i < fewer.len() implies fewer[i] == #[trigger] rates[i] by {}
    }
}

/// A line of a kind is held back if and only if one of its kind was let through less than the
/// interval ago. A line that is let through is remembered with its time; where there is no room for
/// its kind, the one let through longest ago is forgotten. A line held back changes nothing.
pub proof fn lines_of_a_kind_are_held_back(
    rates: Seq<Rate>,
    key: Seq<char>,
    interval: u64,
    now: u64,
    i: int,
)
    requires
        rates.len() <= 16,
        0 <= i < rates.len(),
    ensures
        ({
            let k = place_of(rates, key);
            let after = rates_after(rates, key, interval, now);
            let allowed = rate_allows(rates, key, interval, now);
            &&& k == rates.len() ==> allowed
            &&& k < rates.len() && now >= rates[k].at ==> (allowed <==> now - rates[k].at
                >= interval)
            &&& k < rates.len() && now < rates[k].at ==> (allowed <==> interval == 0)
            &&& !allowed ==> after == rates
            &&& allowed ==> {
                &&& k < rates.len() ==> after.len() == rates.len() && after[k].key == key
                    && after[k].at == now && (i != k ==> after[i] == rates[i])
                &&& k == rates.len() && rates.len() < 16 ==> after.len() == rates.len() + 1
                    && after.last().key == key && after.last().at == now && after[i] == rates[i]
                &&& k == rates.len() && rates.len() == 16 ==> after.len() == 16 && after[oldest(
                    rates,
                )].key == key && after[oldest(rates)].at == now && (i != oldest(rates) ==> after[i]
                    == rates[i])
            }
        }),
{
    place_is_the_first_of_its_key(rates, key);
    oldest_is_the_least_recent(rates);
}

// ---------------------------------------------------------------------------
// Flushing
// ---------------------------------------------------------------------------

/// What was appended is flushed once 2048 bytes have gathered, or half a second after the last
/// flush, and not before.
pub proof fn lines_are_flushed_in_time(f: FlushState, appended: usize, now: u64)
    ensures
        f.buffered_bytes + appended <= usize::MAX ==> buffered_after(f, appended).buffered_bytes
            == f.buffered_bytes + appended,
        f.buffered_bytes + appended > usize::MAX ==> buffered_after(f, appended).buffered_bytes
            == usize::MAX,
        buffered_after(f, appended).last_flush_at == f.last_flush_at,
        flush_is_due(f, now) <==> f.buffered_bytes >= 2048 || now >= f.last_flush_at + 500_000_000,
        now >= f.last_flush_at ==> since(now, f.last_flush_at) == now - f.last_flush_at,
        now < f.last_flush_at ==> since(now, f.last_flush_at) == 0,
{
}

// ---------------------------------------------------------------------------
// Events
// ---------------------------------------------------------------------------

/// Each event has its name, and needs the fields by which it is understood.
pub proof fn events_need_their_fields()
    ensures
        schema_event(LogEventSchema::DaemonStarted) == "daemon.started"@,
        schema_event(LogEventSchema::DaemonStopped) == "daemon.stopped"@,
        schema_event(LogEventSchema::RuleBatch) == "rule.batch"@,
        schema_event(LogEventSchema::RuleAckFailed) == "rule.ack_failed"@,
        schema_event(LogEventSchema::NetlinkAddrEvent) == "netlink.addr_event"@,
        schema_fields(LogEventSchema::DaemonStarted).len() == 7,
        schema_fields(LogEventSchema::DaemonStopped) == seq![
            "count_cleanup_removed"@,
            "count_dropped_events"@,
        ],
        schema_fields(LogEventSchema::RuleBatch) == seq![
            "batch_id"@,
            "count_input"@,
            "count_add"@,
            "count_del"@,
            "count_noop"@,
            "duration_ms"@,
        ],
        schema_fields(LogEventSchema::RuleAckFailed) == seq![
            "batch_id"@,
            "seq"@,
            "errno"@,
            "op_action"@,
            "op_addr"@,
        ],
        schema_fields(LogEventSchema::NetlinkAddrEvent) == seq![
            "nlmsg_type"@,
            "nlmsg_seq"@,
            "family"@,
            "ifindex"@,
            "addr"@,
            "flags"@,
            "op_action"@,
        ],
{
}

/// A refused change is told with its batch, its number, its error, what was to be done and for
/// which address, and with what the kernel added to it, the text before the offset.
pub proof fn refusals_are_told_in_full(event: RuleAckFailedEvent<'_>)
    ensures
        ({
            let f = ack_failed_list(event);
            let n = 5 + (if event.ext_msg is Some {
                1int
            } else {
                0
            }) + (if event.ext_offset is Some {
                1int
            } else {
                0
            });
            &&& f.len() == n
            &&& f[0].0@ == "batch_id"@ && f[0].1 == FieldValue::U64(event.batch_id)
            &&& f[1].0@ == "seq"@ && f[1].1 == FieldValue::U32(event.seq)
            &&& f[2].0@ == "errno"@ && f[2].1 == FieldValue::I32(event.errno)
            &&& f[3].0@ == "op_action"@ && f[3].1 == FieldValue::Str(event.op_action)
            &&& f[4].0@ == "op_addr"@ && f[4].1 == FieldValue::Display(event.op_addr)
            &&& event.ext_msg matches Some(msg) ==> f[5].0@ == "ext_msg"@ && f[5].1
                == FieldValue::Str(msg)
            &&& event.ext_offset matches Some(offset) ==> f[n - 1].0@ == "ext_offset"@ && f[n - 1].1
                == FieldValue::U32(offset)
        }),
{
}

} // verus!
