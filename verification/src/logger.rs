//! Log levels, log lines, and when a line is written and flushed.
use crate::text::{
    dec, dec_signed, digit_char, numeral, push_dec, push_dec_signed, str_eq, str_views,
};
use vstd::prelude::*;
use vstd::utf8::encode_utf8;

verus! {

/// How important a log line is; a line is written where its level does not exceed the logger's.
#[derive(Debug, Clone, Copy, PartialEq, Eq, Structural)]
pub enum Level {
    Error,
    Warn,
    Info,
    Debug,
}

/// The level that a word stands for.
pub open spec fn level_of(raw: Seq<char>) -> Option<Level> {
    if raw == "error"@ {
        Some(Level::Error)
    } else if raw == "warn"@ {
        Some(Level::Warn)
    } else if raw == "info"@ {
        Some(Level::Info)
    } else if raw == "debug"@ {
        Some(Level::Debug)
    } else {
        None
    }
}

/// The rank of a level, the most important first.
pub open spec fn level_rank(level: Level) -> int {
    match level {
        Level::Error => 1,
        Level::Warn => 2,
        Level::Info => 3,
        Level::Debug => 4,
    }
}

impl Level {
    /// The level that a word stands for. Nothing but the four words is accepted.
    pub fn parse(raw: &str) -> (r: Result<Level, &'static str>)
        ensures
            match r {
                Ok(level) => level_of(raw@) == Some(level),
                Err(e) => level_of(raw@) is None && e@
                    == "must be exactly one of error|warn|info|debug"@,
            },
    {
        if str_eq(raw, "error") {
            return Ok(Level::Error);
        }
        if str_eq(raw, "warn") {
            return Ok(Level::Warn);
        }
        if str_eq(raw, "info") {
            return Ok(Level::Info);
        }
        if str_eq(raw, "debug") {
            return Ok(Level::Debug);
        }
        Err("must be exactly one of error|warn|info|debug")
    }

    /// The letter that stands for the level in a log line.
    pub fn tag(self) -> (r: &'static str)
        ensures
            r@ == level_tag(self),
    {
        match self {
            Level::Error => "E",
            Level::Warn => "W",
            Level::Info => "I",
            Level::Debug => "D",
        }
    }

    /// The rank of the level, the most important first.
    pub fn rank(self) -> (r: u8)
        ensures
            r == level_rank(self),
    {
        match self {
            Level::Error => 1,
            Level::Warn => 2,
            Level::Info => 3,
            Level::Debug => 4,
        }
    }
}

/// The letter that stands for a level in a log line.
pub open spec fn level_tag(level: Level) -> Seq<char> {
    match level {
        Level::Error => "E"@,
        Level::Warn => "W"@,
        Level::Info => "I"@,
        Level::Debug => "D"@,
    }
}

// ---------------------------------------------------------------------------
// Values and keys
// ---------------------------------------------------------------------------

/// What a field of a log line holds.
#[derive(Debug, Clone, Copy)]
pub enum FieldValue<'a> {
    /// A text, which is quoted where that is needed.
    Str(&'a str),
    Bool(bool),
    Usize(usize),
    U64(u64),
    U32(u32),
    I32(i32),
    U128(u128),
    /// A text that is written as it is.
    Display(&'a str),
}

impl<'a> FieldValue<'a> {
    /// A field with a text that is written as it is.
    pub fn display(value: &'a str) -> (r: Self)
        ensures
            r == FieldValue::Display(value),
    {
        FieldValue::Display(value)
    }
}

/// A field of a log line: its key, and what it holds.
pub type Field<'a> = (&'a str, FieldValue<'a>);

/// Whether a character can only stand in quotes.
pub open spec fn quoted_char(c: char) -> bool {
    c == ' ' || c == '\t' || c == '\n' || c == '\u{c}' || c == '\r' || c == '"' || c == '\\'
}

/// Whether a text is written in quotes.
pub open spec fn quote_needed(s: Seq<char>) -> bool {
    s.len() == 0 || exists|i: int| 0 <= i < s.len() && quoted_char(#[trigger] s[i])
}

/// How a character is written inside quotes.
pub open spec fn escaped_char(c: char) -> Seq<char> {
    if c == '"' {
        seq!['\\', '"']
    } else if c == '\\' {
        seq!['\\', '\\']
    } else if c == '\n' {
        seq!['\\', 'n']
    } else if c == '\r' {
        seq!['\\', 'r']
    } else if c == '\t' {
        seq!['\\', 't']
    } else {
        seq![c]
    }
}

/// How a text is written inside quotes.
pub open spec fn escaped(s: Seq<char>) -> Seq<char>
    decreases s.len(),
{
    if s.len() == 0 {
        Seq::empty()
    } else {
        escaped(s.drop_last()) + escaped_char(s.last())
    }
}

/// How a text is written in a log line.
pub open spec fn quoted(s: Seq<char>) -> Seq<char> {
    if quote_needed(s) {
        seq!['"'] + escaped(s) + seq!['"']
    } else {
        s
    }
}

/// Inside quotes, the first character is written first.
proof fn lemma_escaped_first(s: Seq<char>)
    requires
        s.len() > 0,
    ensures
        escaped(s) == escaped_char(s[0]) + escaped(s.drop_first()),
    decreases s.len(),
{
    let rest = s.drop_first();
    if s.len() == 1 {
        assert(s.drop_last() =~= Seq::<char>::empty());
        assert(rest =~= Seq::<char>::empty());
        assert(Seq::<char>::empty() + escaped_char(s[0]) =~= escaped_char(s[0])
            + Seq::<char>::empty());
    } else {
        lemma_escaped_first(s.drop_last());
        assert(s.drop_last().drop_first() =~= rest.drop_last());
        assert(escaped_char(s[0]) + escaped(rest.drop_last()) + escaped_char(s.last())
            =~= escaped_char(s[0]) + (escaped(rest.drop_last()) + escaped_char(s.last())));
    }
}

/// Texts that look alike inside quotes are the same.
proof fn lemma_escaped_is_injective(a: Seq<char>, b: Seq<char>)
    requires
        escaped(a) == escaped(b),
    ensures
        a == b,
    decreases a.len(),
{
    if a.len() == 0 || b.len() == 0 {
        if a.len() > 0 {
            lemma_escaped_first(a);
        }
        if b.len() > 0 {
            lemma_escaped_first(b);
        }
        assert(a =~= b);
    } else {
        lemma_escaped_first(a);
        lemma_escaped_first(b);
        let whole = escaped(a);
        let ca = escaped_char(a[0]);
        let cb = escaped_char(b[0]);
        assert(whole[0] == ca[0] && whole[0] == cb[0]);
        assert(ca.len() == 2 <==> whole[0] == '\\');
        assert(cb.len() == 2 <==> whole[0] == '\\');
        if ca.len() == 2 {
            assert(whole[1] == ca[1] && whole[1] == cb[1]);
        }
        assert(a[0] == b[0]);
        assert(escaped(a.drop_first()) =~= whole.skip(ca.len() as int));
        assert(escaped(b.drop_first()) =~= whole.skip(cb.len() as int));
        lemma_escaped_is_injective(a.drop_first(), b.drop_first());
        assert(a =~= seq![a[0]] + a.drop_first());
        assert(b =~= seq![b[0]] + b.drop_first());
    }
}

/// Two different texts never look alike in a log line.
pub proof fn quoted_texts_stay_distinct(a: Seq<char>, b: Seq<char>)
    requires
        a != b,
    ensures
        quoted(a) != quoted(b),
{
    if quoted(a) == quoted(b) {
        if quote_needed(a) && quote_needed(b) {
            assert(escaped(a) =~= quoted(a).subrange(1, quoted(a).len() - 1));
            assert(escaped(b) =~= quoted(b).subrange(1, quoted(b).len() - 1));
            lemma_escaped_is_injective(a, b);
        } else if quote_needed(a) {
            assert(b[0] == '"' && quoted_char(b[0]));
        } else if quote_needed(b) {
            assert(a[0] == '"' && quoted_char(a[0]));
        }
    }
}

/// How a value is written in a log line.
pub open spec fn value_text(value: FieldValue<'_>) -> Seq<char> {
    match value {
        FieldValue::Str(s) => quoted(s@),
        FieldValue::Bool(b) => if b {
            "true"@
        } else {
            "false"@
        },
        FieldValue::Usize(n) => dec(n as nat),
        FieldValue::U64(n) => dec(n as nat),
        FieldValue::U32(n) => dec(n as nat),
        FieldValue::I32(n) => dec_signed(n as int),
        FieldValue::U128(n) => dec(n as nat),
        FieldValue::Display(s) => s@,
    }
}

/// Whether a text has to be written in quotes.
pub fn needs_quote(value: &str) -> (r: bool)
    ensures
        r == quote_needed(value@),
{
    let mut empty = true;
    let mut found = false;
    for c in it: value.chars()
        invariant
            it.seq() == value@,
            empty == (it.index() == 0),
            found == exists|i: int| 0 <= i < it.index() && quoted_char(#[trigger] value@[i]),
    {
        empty = false;
        if c == ' ' || c == '\t' || c == '\n' || c == '\u{c}' || c == '\r' || c == '"' || c == '\\' {
            found = true;
            assert(quoted_char(value@[it.index()]));
        }
    }
    empty || found
}

/// Appends a text, in quotes where that is needed.
pub fn append_quoted_text(out: &mut String, value: &str)
    ensures
        final(out)@ == old(out)@ + quoted(value@),
{
    if !needs_quote(value) {
        out.append(value);
        return;
    }
    let ghost before = out@;
    out.push('"');
    assert(out@ =~= before + seq!['"'] + escaped(value@.subrange(0, 0)));
    for c in it: value.chars()
        invariant
            it.seq() == value@,
            out@ == before + seq!['"'] + escaped(value@.subrange(0, it.index())),
    {
        let ghost had = out@;
        let ghost i = it.index();
        proof {
            assert(value@.subrange(0, i + 1).drop_last() =~= value@.subrange(0, i));
            assert(value@.subrange(0, i + 1).last() == c);
        }
        if c == '"' {
            out.push('\\');
            out.push('"');
        } else if c == '\\' {
            out.push('\\');
            out.push('\\');
        } else if c == '\n' {
            out.push('\\');
            out.push('n');
        } else if c == '\r' {
            out.push('\\');
            out.push('r');
        } else if c == '\t' {
            out.push('\\');
            out.push('t');
        } else {
            out.push(c);
        }
        assert(out@ =~= had + escaped_char(c));
        assert(out@ =~= before + seq!['"'] + escaped(value@.subrange(0, i + 1)));
    }
    assert(value@.subrange(0, value@.len() as int) =~= value@);
    out.push('"');
    assert(out@ =~= before + quoted(value@));
}

/// Appends a value.
pub fn append_value(out: &mut String, value: FieldValue<'_>)
    ensures
        final(out)@ == old(out)@ + value_text(value),
{
    match value {
        FieldValue::Str(s) => append_quoted_text(out, s),
        FieldValue::Bool(b) => {
            if b {
                out.append("true");
            } else {
                out.append("false");
            }
        },
        FieldValue::Usize(n) => push_dec(out, n as u128),
        FieldValue::U64(n) => push_dec(out, n as u128),
        FieldValue::U32(n) => push_dec(out, n as u128),
        FieldValue::I32(n) => push_dec_signed(out, n as i64),
        FieldValue::U128(n) => push_dec(out, n),
        FieldValue::Display(s) => {
            out.append(s);
        },
    }
}

/// How a byte of a key is written.
pub open spec fn key_char(b: u8) -> char {
    if (0x30 <= b <= 0x39) || (0x41 <= b <= 0x5A) || (0x61 <= b <= 0x7A) || b == 0x5F || b == 0x2D
        || b == 0x2E {
        b as char
    } else {
        '_'
    }
}

/// How a key is written.
pub open spec fn key_text(key: Seq<char>) -> Seq<char> {
    Seq::new(encode_utf8(key).len(), |i: int| key_char(encode_utf8(key)[i]))
}

/// Appends a key, with each byte that is no letter, digit, `_`, `-` or `.` written as `_`. Says
/// whether there was anything to append.
pub fn append_key(out: &mut String, key: &str) -> (r: bool)
    ensures
        final(out)@ == old(out)@ + key_text(key@),
        r == (key_text(key@).len() > 0),
{
    let bytes = key.as_bytes();
    let ghost before = out@;
    let ghost all = key_text(key@);
    assert(out@ =~= before + all.subrange(0, 0));
    for i in 0..bytes.len()
        invariant
            bytes@ == encode_utf8(key@),
            all == key_text(key@),
            out@ == before + all.subrange(0, i as int),
    {
        let b: u8 = bytes[i];
        let ghost had = out@;
        if (0x30 <= b && b <= 0x39) || (0x41 <= b && b <= 0x5A) || (0x61 <= b && b <= 0x7A) || b
            == 0x5F || b == 0x2D || b == 0x2E {
            out.push(b as char);
        } else {
            out.push('_');
        }
        assert(out@ =~= before + all.subrange(0, i + 1));
    }
    assert(all.subrange(0, all.len() as int) =~= all);
    bytes.len() > 0
}

// ---------------------------------------------------------------------------
// Lines
// ---------------------------------------------------------------------------

/// How a field is written in a log line; a field without a key is left out.
pub open spec fn field_text(field: Field<'_>) -> Seq<char> {
    if key_text(field.0@).len() == 0 {
        Seq::empty()
    } else {
        " | "@ + key_text(field.0@) + seq!['='] + value_text(field.1)
    }
}

/// How fields are written in a log line.
pub open spec fn fields_text(fields: Seq<Field<'_>>) -> Seq<char>
    decreases fields.len(),
{
    if fields.len() == 0 {
        Seq::empty()
    } else {
        fields_text(fields.drop_last()) + field_text(fields.last())
    }
}

/// The event that a line names.
pub open spec fn event_text(event: Seq<char>) -> Seq<char> {
    if event.len() == 0 {
        "log"@
    } else {
        event
    }
}

/// A log line.
pub open spec fn line_text(
    stamp: Seq<char>,
    level: Level,
    event: Seq<char>,
    fields: Seq<Field<'_>>,
) -> Seq<char> {
    seq!['['] + stamp + "] ["@ + level_tag(level) + "] "@ + event_text(event) + fields_text(fields)
        + seq!['\n']
}

/// Appends a log line.
pub fn build_line_into(
    line: &mut String,
    stamp: &str,
    level: Level,
    event: &str,
    fields: &[Field<'_>],
)
    ensures
        final(line)@ == old(line)@ + line_text(stamp@, level, event@, fields@),
{
    let ghost before = line@;
    line.push('[');
    line.append(stamp);
    line.append("] [");
    line.append(level.tag());
    line.append("] ");
    if str_eq(event, "") {
        proof {
            reveal_strlit("");
        }
        line.append("log");
    } else {
        proof {
            reveal_strlit("");
            if event@.len() == 0 {
                assert(event@ =~= ""@);
            }
        }
        line.append(event);
    }
    let ghost head = line@;
    assert(head =~= before + (seq!['['] + stamp@ + "] ["@ + level_tag(level) + "] "@ + event_text(
        event@,
    )));
    assert(fields@.subrange(0, 0) =~= Seq::<Field<'_>>::empty());
    assert(line@ =~= head + fields_text(fields@.subrange(0, 0)));
    for i in 0..fields.len()
        invariant
            line@ == head + fields_text(fields@.subrange(0, i as int)),
    {
        let ghost had = line@;
        let field: Field<'_> = fields[i];
        proof {
            assert(fields@.subrange(0, i + 1).drop_last() =~= fields@.subrange(0, i as int));
            assert(fields@.subrange(0, i + 1).last() == field);
        }
        let mut key = String::new();
        if append_key(&mut key, field.0) {
            assert(key@ =~= key_text(field.0@));
            line.append(" | ");
            line.append(key.as_str());
            line.push('=');
            append_value(line, field.1);
            assert(line@ =~= had + field_text(field));
        } else {
            assert(line@ =~= had + field_text(field));
        }
        assert(line@ =~= head + fields_text(fields@.subrange(0, i + 1)));
    }
    assert(fields@.subrange(0, fields@.len() as int) =~= fields@);
    line.push('\n');
    assert(line@ =~= before + line_text(stamp@, level, event@, fields@));
}

// ---------------------------------------------------------------------------
// Lines are single lines
// ---------------------------------------------------------------------------

/// Whether a text holds no line break.
pub open spec fn one_line(s: Seq<char>) -> bool {
    forall|i: int| 0 <= i < s.len() ==> #[trigger] s[i] != '\n'
}

/// Texts without a line break have none when joined.
proof fn lemma_joined(a: Seq<char>, b: Seq<char>)
    requires
        one_line(a),
        one_line(b),
    ensures
        one_line(a + b),
{
}

/// A numeral is a single line.
proof fn lemma_numeral(n: nat)
    ensures
        one_line(numeral(n, 10)),
    decreases n,
{
    assert(digit_char(n % 10) != '\n');
    if n < 10 {
        assert(digit_char(n) != '\n');
        assert(numeral(n, 10) =~= seq![digit_char(n)]);
    } else {
        assert(n / 10 < n);
        lemma_numeral(n / 10);
        assert(numeral(n, 10) == numeral(n / 10, 10).push(digit_char(n % 10)));
    }
}

/// A text is a single line inside quotes.
proof fn lemma_escaped(s: Seq<char>)
    ensures
        one_line(escaped(s)),
    decreases s.len(),
{
    if s.len() > 0 {
        lemma_escaped(s.drop_last());
        assert(one_line(escaped_char(s.last())));
        lemma_joined(escaped(s.drop_last()), escaped_char(s.last()));
    }
}

/// A value that is not written as it is makes a single line, whatever it holds.
proof fn lemma_value(value: FieldValue<'_>)
    requires
        value matches FieldValue::Display(s) ==> one_line(s@),
    ensures
        one_line(value_text(value)),
{
    match value {
        FieldValue::Str(s) => {
            lemma_escaped(s@);
            if quote_needed(s@) {
                lemma_joined(seq!['"'], escaped(s@));
                lemma_joined(seq!['"'] + escaped(s@), seq!['"']);
            } else {
                assert(forall|i: int| 0 <= i < s@.len() ==> !quoted_char(#[trigger] s@[i]));
            }
        },
        FieldValue::Bool(b) => {
            reveal_strlit("true");
            reveal_strlit("false");
        },
        FieldValue::Usize(n) => lemma_numeral(n as nat),
        FieldValue::U64(n) => lemma_numeral(n as nat),
        FieldValue::U32(n) => lemma_numeral(n as nat),
        FieldValue::I32(n) => {
            if n < 0 {
                lemma_numeral((-n) as nat);
                lemma_joined(seq!['-'], dec((-n) as nat));
            } else {
                lemma_numeral(n as nat);
            }
        },
        FieldValue::U128(n) => lemma_numeral(n as nat),
        FieldValue::Display(s) => {},
    }
}

/// Fields make a single line.
proof fn lemma_fields(fields: Seq<Field<'_>>)
    requires
        forall|i: int|
            #![trigger fields[i]]
            0 <= i < fields.len() ==> (fields[i].1 matches FieldValue::Display(s) ==> one_line(s@)),
    ensures
        one_line(fields_text(fields)),
    decreases fields.len(),
{
    if fields.len() > 0 {
        assert forall|i: int|
            #![trigger fields.drop_last()[i]]
            0 <= i < fields.drop_last().len() implies (fields.drop_last()[i].1 matches FieldValue::Display(
            s,
        ) ==> one_line(s@)) by {
            assert(fields.drop_last()[i] == fields[i]);
        }
        lemma_fields(fields.drop_last());
        let f = fields.last();
        assert(f == fields[fields.len() - 1]);
        lemma_value(f.1);
        reveal_strlit(" | ");
        assert(one_line(key_text(f.0@)));
        lemma_joined(" | "@, key_text(f.0@));
        lemma_joined(" | "@ + key_text(f.0@), seq!['=']);
        lemma_joined(" | "@ + key_text(f.0@) + seq!['='], value_text(f.1));
        lemma_joined(fields_text(fields.drop_last()), field_text(f));
    }
}

/// A log line is one line: a line break stands at its end and nowhere else, whatever its quoted
/// fields and its keys hold. Only the time, the event and the texts that are written as they are
/// must be free of line breaks.
pub proof fn log_line_is_one_line(
    stamp: Seq<char>,
    level: Level,
    event: Seq<char>,
    fields: Seq<Field<'_>>,
)
    requires
        one_line(stamp),
        one_line(event),
        forall|i: int|
            #![trigger fields[i]]
            0 <= i < fields.len() ==> (fields[i].1 matches FieldValue::Display(s) ==> one_line(s@)),
    ensures
        line_text(stamp, level, event, fields).last() == '\n',
        one_line(line_text(stamp, level, event, fields).drop_last()),
{
    reveal_strlit("] [");
    reveal_strlit("] ");
    reveal_strlit("log");
    reveal_strlit("E");
    reveal_strlit("W");
    reveal_strlit("I");
    reveal_strlit("D");
    lemma_fields(fields);
    let head = seq!['['] + stamp + "] ["@ + level_tag(level) + "] "@ + event_text(event);
    lemma_joined(seq!['['], stamp);
    lemma_joined(seq!['['] + stamp, "] ["@);
    lemma_joined(seq!['['] + stamp + "] ["@, level_tag(level));
    lemma_joined(seq!['['] + stamp + "] ["@ + level_tag(level), "] "@);
    lemma_joined(
        seq!['['] + stamp + "] ["@ + level_tag(level) + "] "@,
        event_text(event),
    );
    lemma_joined(head, fields_text(fields));
    assert(line_text(stamp, level, event, fields).drop_last() =~= head + fields_text(fields));
}

// ---------------------------------------------------------------------------
// Time stamps
// ---------------------------------------------------------------------------

/// What is written where the time is not known.
pub const UNKNOWN_TIME: &'static str = "1970-01-01 00:00:00.000";

/// A local time as the system breaks it down: years since 1900, months since January.
#[derive(Debug, Clone, Copy, PartialEq, Eq, Structural)]
pub struct LocalTime {
    pub year: i32,
    pub mon: i32,
    pub mday: i32,
    pub hour: i32,
    pub min: i32,
    pub sec: i32,
}

/// A number with zeros before its digits, up to a width; the sign counts.
pub open spec fn padded(n: int, width: nat) -> Seq<char> {
    if n < 0 {
        let digits = dec((-n) as nat);
        seq!['-'] + zero_chars(width - 1 - digits.len()) + digits
    } else {
        let digits = dec(n as nat);
        zero_chars(width - digits.len()) + digits
    }
}

/// A row of zeros.
pub open spec fn zero_chars(n: int) -> Seq<char> {
    Seq::new(
        if n < 0 {
            0
        } else {
            n as nat
        },
        |i: int| '0',
    )
}

/// Appends a number with zeros before its digits, up to a width.
pub fn push_padded(out: &mut String, n: i64, width: usize)
    requires
        1 <= width <= 16,
    ensures
        final(out)@ == old(out)@ + padded(n as int, width as nat),
{
    let ghost before = out@;
    let mut digits = String::new();
    let mut taken: usize = 0;
    if n < 0 {
        out.push('-');
        taken = 1;
        push_dec(&mut digits, (0 - n as i128) as u128);
        assert(digits@ =~= dec((-n) as nat));
    } else {
        push_dec(&mut digits, n as u128);
        assert(digits@ =~= dec(n as nat));
    }
    let ghost head = out@;
    let count: usize = digits.as_str().unicode_len();
    if count < width - taken {
        let zeros: usize = width - taken - count;
        assert(out@ =~= head + zero_chars(0));
        for i in 0..zeros
            invariant
                out@ == head + zero_chars(i as int),
        {
            let ghost had = out@;
            out.push('0');
            assert(out@ =~= head + zero_chars(i + 1));
        }
    } else {
        assert(out@ =~= head + zero_chars(width - taken - count));
    }
    out.append(digits.as_str());
    assert(out@ =~= before + padded(n as int, width as nat));
}

/// How a local time is written, without the milliseconds.
pub open spec fn time_text(t: LocalTime) -> Seq<char> {
    padded(t.year + 1900, 4) + seq!['-'] + padded(t.mon + 1, 2) + seq!['-'] + padded(
        t.mday as int,
        2,
    ) + seq![' '] + padded(t.hour as int, 2) + seq![':'] + padded(t.min as int, 2) + seq![':']
        + padded(t.sec as int, 2)
}

/// The last second that was written, and how.
pub struct TimestampCache {
    pub sec: i64,
    pub prefix: String,
}

impl Default for TimestampCache {
    fn default() -> (r: Self)
        ensures
            r.sec == 0,
            r.prefix@ == Seq::<char>::empty(),
    {
        TimestampCache { sec: 0, prefix: String::new() }
    }
}

impl TimestampCache {
    /// Whether the second was the last one to be written.
    pub fn holds(&self, sec: i64) -> (r: bool)
        ensures
            r == (self.sec == sec && self.prefix@.len() > 0),
    {
        self.sec == sec && self.prefix.as_str().unicode_len() > 0
    }

    /// Keeps how a second is written.
    pub fn keep(&mut self, sec: i64, t: LocalTime)
        ensures
            final(self).sec == sec,
            final(self).prefix@ == time_text(t),
    {
        let mut s = String::new();
        push_padded(&mut s, t.year as i64 + 1900, 4);
        s.push('-');
        push_padded(&mut s, t.mon as i64 + 1, 2);
        s.push('-');
        push_padded(&mut s, t.mday as i64, 2);
        s.push(' ');
        push_padded(&mut s, t.hour as i64, 2);
        s.push(':');
        push_padded(&mut s, t.min as i64, 2);
        s.push(':');
        push_padded(&mut s, t.sec as i64, 2);
        assert(s@ =~= time_text(t));
        self.sec = sec;
        self.prefix = s;
    }

    /// Writes the second that is kept, with the milliseconds.
    pub fn stamp(&self, usec: u32) -> (r: String)
        ensures
            r@ == self.prefix@ + seq!['.'] + padded((usec / 1000) as int, 3),
    {
        let mut s = self.prefix.as_str().to_owned();
        s.push('.');
        push_padded(&mut s, (usec / 1000) as i64, 3);
        assert(s@ =~= self.prefix@ + seq!['.'] + padded((usec / 1000) as int, 3));
        s
    }
}

// ---------------------------------------------------------------------------
// What is written, and when it is flushed
// ---------------------------------------------------------------------------

/// How many keys a rate limiter remembers.
pub const RATE_LIMIT_SLOTS: usize = 16;

/// Times in nanoseconds.
pub const SOFT_FLUSH_INTERVAL: u64 = 500_000_000;

pub const SOFT_FLUSH_BYTES: usize = 2048;

/// When a line with a key was last written.
#[derive(Clone, Copy)]
pub struct RateEntry {
    pub key: &'static str,
    pub at: u64,
}

/// Keys and when each was last written.
pub struct RateLimiter {
    pub entries: Vec<RateEntry>,
}

/// A key and when it was last written.
pub struct Rate {
    pub key: Seq<char>,
    pub at: u64,
}

impl View for RateLimiter {
    type V = Seq<Rate>;

    open spec fn view(&self) -> Seq<Rate> {
        Seq::new(
            self.entries@.len(),
            |i: int| Rate { key: self.entries@[i].key@, at: self.entries@[i].at },
        )
    }
}

/// The first place of a key, or the number of entries.
pub open spec fn place_of(rates: Seq<Rate>, key: Seq<char>) -> int
    decreases rates.len(),
{
    if rates.len() == 0 || rates[0].key == key {
        0
    } else {
        1 + place_of(rates.drop_first(), key)
    }
}

/// What `place_of` finds.
proof fn lemma_place(rates: Seq<Rate>, key: Seq<char>)
    ensures
        0 <= place_of(rates, key) <= rates.len(),
        place_of(rates, key) < rates.len() ==> rates[place_of(rates, key)].key == key,
        forall|i: int| 0 <= i < place_of(rates, key) ==> (#[trigger] rates[i]).key != key,
    decreases rates.len(),
{
    if rates.len() > 0 && rates[0].key != key {
        lemma_place(rates.drop_first(), key);
        let k = place_of(rates.drop_first(), key);
        assert forall|i: int| 0 <= i < k + 1 implies (#[trigger] rates[i]).key != key by {
            if i > 0 {
                assert(rates[i] == rates.drop_first()[i - 1]);
            }
        }
    }
}

/// Where a key stands, if every entry before does not hold it.
proof fn lemma_place_is(rates: Seq<Rate>, key: Seq<char>, k: int)
    requires
        0 <= k <= rates.len(),
        k < rates.len() ==> rates[k].key == key,
        forall|i: int| 0 <= i < k ==> (#[trigger] rates[i]).key != key,
    ensures
        place_of(rates, key) == k,
{
    lemma_place(rates, key);
}

/// The place of the entry that was written longest ago, the first where several are.
pub open spec fn oldest(rates: Seq<Rate>) -> int
    recommends
        rates.len() > 0,
    decreases rates.len(),
{
    if rates.len() <= 1 {
        0
    } else {
        let k = oldest(rates.drop_last());
        if rates.last().at < rates[k].at {
            rates.len() - 1
        } else {
            k
        }
    }
}

/// The oldest entry is one of the entries.
proof fn lemma_oldest(rates: Seq<Rate>)
    requires
        rates.len() > 0,
    ensures
        0 <= oldest(rates) < rates.len(),
    decreases rates.len(),
{
    if rates.len() > 1 {
        lemma_oldest(rates.drop_last());
    }
}

/// The time between two instants; zero where the second is the earlier.
pub open spec fn since(now: u64, at: u64) -> int {
    if now >= at {
        now - at
    } else {
        0
    }
}

/// Whether a line with a key may be written.
pub open spec fn rate_allows(rates: Seq<Rate>, key: Seq<char>, interval: u64, now: u64) -> bool {
    let k = place_of(rates, key);
    k < rates.len() ==> since(now, rates[k].at) >= interval
}

/// What is remembered once a line with a key was asked for. A key that is not remembered takes a
/// free place, or that of the oldest entry.
pub open spec fn rates_after(rates: Seq<Rate>, key: Seq<char>, interval: u64, now: u64) -> Seq<
    Rate,
> {
    let k = place_of(rates, key);
    let entry = Rate { key, at: now };
    if !rate_allows(rates, key, interval, now) {
        rates
    } else if k < rates.len() {
        rates.update(k, entry)
    } else if rates.len() < RATE_LIMIT_SLOTS {
        rates.push(entry)
    } else {
        rates.update(oldest(rates), entry)
    }
}

/// No two entries have the same key.
pub open spec fn distinct_keys(rates: Seq<Rate>) -> bool {
    forall|i: int, j: int|
        0 <= i < j < rates.len() ==> (#[trigger] rates[i]).key != (#[trigger] rates[j]).key
}

/// A rate limiter remembers no key twice, and no more keys than it has places for.
pub proof fn rates_stay_distinct(rates: Seq<Rate>, key: Seq<char>, interval: u64, now: u64)
    requires
        distinct_keys(rates),
        rates.len() <= RATE_LIMIT_SLOTS,
    ensures
        distinct_keys(rates_after(rates, key, interval, now)),
        rates_after(rates, key, interval, now).len() <= RATE_LIMIT_SLOTS,
{
    lemma_place(rates, key);
    if rates.len() > 0 {
        lemma_oldest(rates);
    }
}

/// After a line was written, a line with the same key is not written again until the interval
/// has passed.
pub proof fn second_line_is_held_back(
    rates: Seq<Rate>,
    key: Seq<char>,
    interval: u64,
    now: u64,
    later: u64,
)
    requires
        rates.len() <= RATE_LIMIT_SLOTS,
        rate_allows(rates, key, interval, now),
    ensures
        rate_allows(rates_after(rates, key, interval, now), key, interval, later) == (since(
            later,
            now,
        ) >= interval),
{
    lemma_place(rates, key);
    let k = place_of(rates, key);
    let after = rates_after(rates, key, interval, now);
    if k < rates.len() {
        lemma_place_is(after, key, k);
    } else if rates.len() < RATE_LIMIT_SLOTS {
        assert(forall|i: int| 0 <= i < rates.len() ==> after[i] == rates[i]);
        lemma_place_is(after, key, rates.len() as int);
    } else {
        lemma_oldest(rates);
        assert(forall|i: int| 0 <= i < oldest(rates) ==> after[i] == rates[i]);
        lemma_place_is(after, key, oldest(rates));
    }
}

impl Default for RateLimiter {
    fn default() -> (r: Self)
        ensures
            r@ == Seq::<Rate>::empty(),
    {
        let r = RateLimiter { entries: Vec::new() };
        assert(r@ =~= Seq::<Rate>::empty());
        r
    }
}

impl RateLimiter {
    /// Whether a line with the key may be written now; if so, remembers that it was.
    pub fn should_log(&mut self, key: &'static str, interval: u64, now: u64) -> (r: bool)
        ensures
            r == rate_allows(old(self)@, key@, interval, now),
            final(self)@ == rates_after(old(self)@, key@, interval, now),
    {
        let ghost rates = self@;
        let n: usize = self.entries.len();
        let mut i: usize = 0;
        while i < n
            invariant
                n == self.entries@.len(),
                self@ == rates,
                i <= n,
                forall|j: int| 0 <= j < i ==> (#[trigger] rates[j]).key != key@,
                rates == old(self)@,
            decreases n - i,
        {
            let entry = self.entries[i];
            assert(rates[i as int] == (Rate { key: entry.key@, at: entry.at }));
            if str_eq(entry.key, key) {
                proof {
                    lemma_place_is(rates, key@, i as int);
                }
                let passed: u64 = now.saturating_sub(entry.at);
                if passed < interval {
                    return false;
                }
                self.entries.set(i, RateEntry { key, at: now });
                assert(self@ =~= rates.update(i as int, Rate { key: key@, at: now }));
                return true;
            }
            i = i + 1;
        }
        proof {
            lemma_place_is(rates, key@, n as int);
        }
        if n < RATE_LIMIT_SLOTS {
            self.entries.push(RateEntry { key, at: now });
            assert(self@ =~= rates.push(Rate { key: key@, at: now }));
            return true;
        }
        let mut oldest_idx: usize = 0;
        let mut oldest_at: u64 = self.entries[0].at;
        assert(rates.subrange(0, 1).len() == 1);
        for idx in 1..n
            invariant
                n == self.entries@.len(),
                self@ == rates,
                n >= RATE_LIMIT_SLOTS,
                oldest_idx < idx,
                oldest_idx == oldest(rates.subrange(0, idx as int)),
                oldest_at == rates[oldest_idx as int].at,
        {
            let at: u64 = self.entries[idx].at;
            proof {
                let upto = rates.subrange(0, idx + 1);
                assert(upto.drop_last() =~= rates.subrange(0, idx as int));
                assert(upto.last() == rates[idx as int]);
                assert(upto[oldest_idx as int] == rates[oldest_idx as int]);
            }
            if at < oldest_at {
                oldest_at = at;
                oldest_idx = idx;
            }
        }
        assert(rates.subrange(0, n as int) =~= rates);
        self.entries.set(oldest_idx, RateEntry { key, at: now });
        assert(self@ =~= rates.update(oldest_idx as int, Rate { key: key@, at: now }));
        true
    }
}

/// What was written since the last flush, and when that was.
#[derive(Debug, Clone, Copy, PartialEq, Eq, Structural)]
pub struct FlushState {
    pub last_flush_at: u64,
    pub buffered_bytes: usize,
}

/// What is buffered after more bytes were written.
pub open spec fn buffered_after(f: FlushState, appended: usize) -> FlushState {
    FlushState {
        buffered_bytes: if f.buffered_bytes + appended <= usize::MAX {
            (f.buffered_bytes + appended) as usize
        } else {
            usize::MAX
        },
        ..f
    }
}

/// Whether enough is buffered, or the last flush was long enough ago.
pub open spec fn flush_is_due(f: FlushState, now: u64) -> bool {
    f.buffered_bytes >= SOFT_FLUSH_BYTES || since(now, f.last_flush_at) >= SOFT_FLUSH_INTERVAL
}

impl FlushState {
    /// Counts bytes that were written, and says whether it is time for a flush.
    pub fn should_soft_flush(&mut self, appended_bytes: usize, now: u64) -> (r: bool)
        ensures
            *final(self) == buffered_after(*old(self), appended_bytes),
            r == flush_is_due(*final(self), now),
    {
        self.buffered_bytes = self.buffered_bytes.saturating_add(appended_bytes);
        self.buffered_bytes >= SOFT_FLUSH_BYTES || now.saturating_sub(self.last_flush_at)
            >= SOFT_FLUSH_INTERVAL
    }

    /// Notes a flush.
    pub fn mark_flushed(&mut self, now: u64)
        ensures
            *final(self) == (FlushState { last_flush_at: now, buffered_bytes: 0 }),
    {
        self.buffered_bytes = 0;
        self.last_flush_at = now;
    }
}

/// What a logger decides with.
pub struct Logger {
    pub level: Level,
    pub rate: RateLimiter,
    pub flush_state: FlushState,
}

impl Logger {
    /// A logger that has written nothing yet.
    pub fn new(level: Level, now: u64) -> (r: Self)
        ensures
            r.level == level,
            r.rate@ == Seq::<Rate>::empty(),
            r.flush_state == (FlushState { last_flush_at: now, buffered_bytes: 0 }),
    {
        Logger {
            level,
            rate: RateLimiter::default(),
            flush_state: FlushState { last_flush_at: now, buffered_bytes: 0 },
        }
    }

    /// Whether lines of a level are written.
    pub fn enabled(&self, level: Level) -> (r: bool)
        ensures
            r == (level_rank(level) <= level_rank(self.level)),
            self.level == Level::Error ==> (r <==> level == Level::Error),
            self.level == Level::Warn ==> (r <==> level == Level::Error || level == Level::Warn),
            self.level == Level::Info ==> (r <==> level != Level::Debug),
            self.level == Level::Debug ==> r,
    {
        self.level.rank() >= level.rank()
    }

    /// Whether a line with a key may be written now. Without a key, or without an interval,
    /// every line is.
    pub fn should_log_now(&mut self, key: &'static str, interval: u64, now: u64) -> (r: bool)
        ensures
            final(self).level == old(self).level,
            final(self).flush_state == old(self).flush_state,
            if key@.len() == 0 || interval == 0 {
                r && final(self).rate@ == old(self).rate@
            } else {
                r == rate_allows(old(self).rate@, key@, interval, now) && final(self).rate@
                    == rates_after(old(self).rate@, key@, interval, now)
            },
    {
        if key.unicode_len() == 0 || interval == 0 {
            return true;
        }
        self.rate.should_log(key, interval, now)
    }

    /// The line to be written; `None` where lines of the level are not.
    pub fn log_line(&self, stamp: &str, level: Level, event: &str, fields: &[Field<'_>]) -> (r:
        Option<String>)
        ensures
            match r {
                Some(line) => level_rank(level) <= level_rank(self.level) && line@ == line_text(
                    stamp@,
                    level,
                    event@,
                    fields@,
                ),
                None => level_rank(level) > level_rank(self.level),
            },
    {
        if !self.enabled(level) {
            return None;
        }
        let mut line = String::new();
        build_line_into(&mut line, stamp, level, event, fields);
        assert(line@ =~= line_text(stamp@, level, event@, fields@));
        Some(line)
    }

    /// Whether to flush after a line was written. Warnings and errors, and all lines of a logger
    /// that writes everything, are flushed at once and are not counted.
    pub fn should_flush(&mut self, level: Level, line_len: usize, now: u64) -> (r: bool)
        ensures
            final(self).level == old(self).level,
            final(self).rate == old(self).rate,
            if level_rank(level) <= level_rank(Level::Warn) || old(self).level == Level::Debug {
                r && final(self).flush_state == old(self).flush_state
            } else {
                final(self).flush_state == buffered_after(old(self).flush_state, line_len) && r
                    == flush_is_due(final(self).flush_state, now)
            },
            level == Level::Error || level == Level::Warn ==> r,
            old(self).level == Level::Debug ==> r,
            level == Level::Info && old(self).level != Level::Debug && r
                ==> final(self).flush_state.buffered_bytes >= 2048 || now
                >= old(self).flush_state.last_flush_at + 500_000_000,
    {
        if level.rank() <= Level::Warn.rank() || self.level == Level::Debug {
            return true;
        }
        self.flush_state.should_soft_flush(line_len, now)
    }
}

// ---------------------------------------------------------------------------
// Events with a fixed set of fields
// ---------------------------------------------------------------------------

/// Events that always carry certain fields.
#[derive(Debug, Clone, Copy, PartialEq, Eq, Structural)]
pub enum LogEventSchema {
    DaemonStarted,
    DaemonStopped,
    RuleBatch,
    RuleAckFailed,
    NetlinkAddrEvent,
}

/// The name of an event.
pub open spec fn schema_event(schema: LogEventSchema) -> Seq<char> {
    match schema {
        LogEventSchema::DaemonStarted => "daemon.started"@,
        LogEventSchema::DaemonStopped => "daemon.stopped"@,
        LogEventSchema::RuleBatch => "rule.batch"@,
        LogEventSchema::RuleAckFailed => "rule.ack_failed"@,
        LogEventSchema::NetlinkAddrEvent => "netlink.addr_event"@,
    }
}

/// The fields that an event always carries.
pub open spec fn schema_fields(schema: LogEventSchema) -> Seq<Seq<char>> {
    match schema {
        LogEventSchema::DaemonStarted => seq![
            "pref"@,
            "table_id"@,
            "batch_max"@,
            "count_cleanup_removed"@,
            "count_resync_add"@,
            "count_resync_del"@,
            "count_resync_failed"@,
        ],
        LogEventSchema::DaemonStopped => seq!["count_cleanup_removed"@, "count_dropped_events"@],
        LogEventSchema::RuleBatch => seq![
            "batch_id"@,
            "count_input"@,
            "count_add"@,
            "count_del"@,
            "count_noop"@,
            "duration_ms"@,
        ],
        LogEventSchema::RuleAckFailed => seq![
            "batch_id"@,
            "seq"@,
            "errno"@,
            "op_action"@,
            "op_addr"@,
        ],
        LogEventSchema::NetlinkAddrEvent => seq![
            "nlmsg_type"@,
            "nlmsg_seq"@,
            "family"@,
            "ifindex"@,
            "addr"@,
            "flags"@,
            "op_action"@,
        ],
    }
}

impl LogEventSchema {
    /// The name of the event.
    pub fn event(self) -> (r: &'static str)
        ensures
            r@ == schema_event(self),
    {
        match self {
            LogEventSchema::DaemonStarted => "daemon.started",
            LogEventSchema::DaemonStopped => "daemon.stopped",
            LogEventSchema::RuleBatch => "rule.batch",
            LogEventSchema::RuleAckFailed => "rule.ack_failed",
            LogEventSchema::NetlinkAddrEvent => "netlink.addr_event",
        }
    }

    /// The fields that the event always carries.
    pub fn required_fields(self) -> (r: Vec<&'static str>)
        ensures
            str_views(r@) == schema_fields(self),
    {
        let r: Vec<&'static str> = match self {
            LogEventSchema::DaemonStarted => vec![
                "pref",
                "table_id",
                "batch_max",
                "count_cleanup_removed",
                "count_resync_add",
                "count_resync_del",
                "count_resync_failed",
            ],
            LogEventSchema::DaemonStopped => vec!["count_cleanup_removed", "count_dropped_events"],
            LogEventSchema::RuleBatch => vec![
                "batch_id",
                "count_input",
                "count_add",
                "count_del",
                "count_noop",
                "duration_ms",
            ],
            LogEventSchema::RuleAckFailed => vec![
                "batch_id",
                "seq",
                "errno",
                "op_action",
                "op_addr",
            ],
            LogEventSchema::NetlinkAddrEvent => vec![
                "nlmsg_type",
                "nlmsg_seq",
                "family",
                "ifindex",
                "addr",
                "flags",
                "op_action",
            ],
        };
        assert(str_views(r@) =~= schema_fields(self));
        r
    }
}

/// Whether a field with a key is there.
pub open spec fn has_field(fields: Seq<Field<'_>>, key: Seq<char>) -> bool {
    exists|i: int| 0 <= i < fields.len() && (#[trigger] fields[i]).0@ == key
}

/// The required keys for which there is no field.
pub open spec fn missing_fields(required: Seq<Seq<char>>, fields: Seq<Field<'_>>) -> Seq<Seq<char>>
    decreases required.len(),
{
    if required.len() == 0 {
        Seq::empty()
    } else if has_field(fields, required.last()) {
        missing_fields(required.drop_last(), fields)
    } else {
        missing_fields(required.drop_last(), fields).push(required.last())
    }
}

/// Where every required key has its field, none is missing.
pub proof fn lemma_none_missing(required: Seq<Seq<char>>, fields: Seq<Field<'_>>)
    requires
        forall|i: int| 0 <= i < required.len() ==> has_field(fields, #[trigger] required[i]),
    ensures
        missing_fields(required, fields).len() == 0,
    decreases required.len(),
{
    if required.len() > 0 {
        assert forall|i: int| 0 <= i < required.drop_last().len() implies has_field(
            fields,
            #[trigger] required.drop_last()[i],
        ) by {
            assert(required.drop_last()[i] == required[i]);
        }
        lemma_none_missing(required.drop_last(), fields);
        assert(required.last() == required[required.len() - 1]);
    }
}

/// Whether a field with a key is there.
fn field_is_there(fields: &[Field<'_>], key: &str) -> (r: bool)
    ensures
        r == has_field(fields@, key@),
{
    for i in 0..fields.len()
        invariant
            forall|j: int| 0 <= j < i ==> (#[trigger] fields@[j]).0@ != key@,
    {
        if str_eq(fields[i].0, key) {
            assert(fields@[i as int].0@ == key@);
            return true;
        }
    }
    false
}

/// The required keys for which there is no field, in order.
pub fn collect_missing_required_fields<'a>(required: &[&'a str], fields: &[Field<'_>]) -> (r: Vec<
    &'a str,
>)
    ensures
        str_views(r@) == missing_fields(str_views(required@), fields@),
{
    let ghost all = str_views(required@);
    let mut out: Vec<&'a str> = Vec::new();
    assert(all.subrange(0, 0) =~= Seq::<Seq<char>>::empty());
    assert(str_views(out@) =~= Seq::<Seq<char>>::empty());
    for i in 0..required.len()
        invariant
            all == str_views(required@),
            str_views(out@) == missing_fields(all.subrange(0, i as int), fields@),
    {
        let ghost had = str_views(out@);
        let key: &'a str = required[i];
        proof {
            assert(all.subrange(0, i + 1).drop_last() =~= all.subrange(0, i as int));
            assert(all.subrange(0, i + 1).last() == key@);
        }
        if !field_is_there(fields, key) {
            out.push(key);
            assert(str_views(out@) =~= had.push(key@));
        }
    }
    assert(all.subrange(0, all.len() as int) =~= all);
    out
}

/// Texts with a comma between each two.
pub open spec fn comma_joined(parts: Seq<Seq<char>>) -> Seq<char>
    decreases parts.len(),
{
    if parts.len() == 0 {
        Seq::empty()
    } else if parts.len() == 1 {
        parts[0]
    } else {
        comma_joined(parts.drop_last()) + seq![','] + parts.last()
    }
}

/// What is missing of the fields that an event always carries, if anything is.
pub fn schema_violation(schema: LogEventSchema, fields: &[Field<'_>]) -> (r: Option<String>)
    ensures
        match r {
            Some(text) => missing_fields(schema_fields(schema), fields@).len() > 0 && text@
                == comma_joined(missing_fields(schema_fields(schema), fields@)),
            None => missing_fields(schema_fields(schema), fields@).len() == 0,
        },
{
    let required = schema.required_fields();
    let missing = collect_missing_required_fields(required.as_slice(), fields);
    let ghost all = str_views(missing@);
    assert(all.len() == missing@.len());
    if missing.len() == 0 {
        return None;
    }
    let mut text = missing[0].to_owned();
    assert(all.subrange(0, 1).len() == 1 && all.subrange(0, 1)[0] == all[0]);
    for i in 1..missing.len()
        invariant
            all == str_views(missing@),
            text@ == comma_joined(all.subrange(0, i as int)),
    {
        proof {
            assert(all.subrange(0, i + 1).drop_last() =~= all.subrange(0, i as int));
            assert(all.subrange(0, i + 1).last() == all[i as int]);
        }
        text.push(',');
        text.append(missing[i]);
        assert(text@ =~= comma_joined(all.subrange(0, i as int)) + seq![','] + all[i as int]);
    }
    assert(all.subrange(0, all.len() as int) =~= all);
    Some(text)
}

/// What is logged of a batch of rule changes.
pub struct RuleBatchEvent {
    pub batch_id: u64,
    pub count_input: usize,
    pub count_add: usize,
    pub count_del: usize,
    pub count_noop: usize,
    pub count_failed: usize,
    pub duration_ms: u128,
}

/// The fields of a batch of rule changes.
pub fn rule_batch_fields(event: &RuleBatchEvent) -> (r: Vec<Field<'static>>)
    ensures
        r@ == seq![
            ("batch_id", FieldValue::<'static>::U64(event.batch_id)),
            ("count_input", FieldValue::<'static>::Usize(event.count_input)),
            ("count_add", FieldValue::<'static>::Usize(event.count_add)),
            ("count_del", FieldValue::<'static>::Usize(event.count_del)),
            ("count_noop", FieldValue::<'static>::Usize(event.count_noop)),
            ("count_failed", FieldValue::<'static>::Usize(event.count_failed)),
            ("duration_ms", FieldValue::<'static>::U128(event.duration_ms)),
        ],
        missing_fields(schema_fields(LogEventSchema::RuleBatch), r@).len() == 0,
{
    let r: Vec<Field<'static>> = vec![
        ("batch_id", FieldValue::U64(event.batch_id)),
        ("count_input", FieldValue::Usize(event.count_input)),
        ("count_add", FieldValue::Usize(event.count_add)),
        ("count_del", FieldValue::Usize(event.count_del)),
        ("count_noop", FieldValue::Usize(event.count_noop)),
        ("count_failed", FieldValue::Usize(event.count_failed)),
        ("duration_ms", FieldValue::U128(event.duration_ms)),
    ];
    proof {
        let required = schema_fields(LogEventSchema::RuleBatch);
        assert(r@[0].0@ == required[0]);
        assert(r@[1].0@ == required[1]);
        assert(r@[2].0@ == required[2]);
        assert(r@[3].0@ == required[3]);
        assert(r@[4].0@ == required[4]);
        assert(r@[6].0@ == required[5]);
        lemma_none_missing(required, r@);
    }
    r
}

/// What is logged of a rule change that the system refused.
pub struct RuleAckFailedEvent<'a> {
    pub batch_id: u64,
    pub seq: u32,
    pub errno: i32,
    pub op_action: &'static str,
    pub op_addr: &'a str,
    pub ext_msg: Option<&'a str>,
    pub ext_offset: Option<u32>,
}

/// The fields of a rule change that the system refused. What the system said more is there only
/// where it said it.
pub open spec fn ack_failed_list<'a>(event: RuleAckFailedEvent<'a>) -> Seq<Field<'a>> {
    let base = seq![
        ("batch_id", FieldValue::<'a>::U64(event.batch_id)),
        ("seq", FieldValue::<'a>::U32(event.seq)),
        ("errno", FieldValue::<'a>::I32(event.errno)),
        ("op_action", FieldValue::<'a>::Str(event.op_action)),
        ("op_addr", FieldValue::<'a>::Display(event.op_addr)),
    ];
    let with_msg = match event.ext_msg {
        Some(msg) => base.push(("ext_msg", FieldValue::<'a>::Str(msg))),
        None => base,
    };
    match event.ext_offset {
        Some(offset) => with_msg.push(("ext_offset", FieldValue::<'a>::U32(offset))),
        None => with_msg,
    }
}

/// The fields of a rule change that the system refused.
pub fn rule_ack_failed_fields<'a>(event: RuleAckFailedEvent<'a>) -> (r: Vec<Field<'a>>)
    ensures
        r@ == ack_failed_list(event),
        missing_fields(schema_fields(LogEventSchema::RuleAckFailed), r@).len() == 0,
{
    let mut r: Vec<Field<'a>> = vec![
        ("batch_id", FieldValue::U64(event.batch_id)),
        ("seq", FieldValue::U32(event.seq)),
        ("errno", FieldValue::I32(event.errno)),
        ("op_action", FieldValue::Str(event.op_action)),
        ("op_addr", FieldValue::display(event.op_addr)),
    ];
    if let Some(msg) = event.ext_msg {
        r.push(("ext_msg", FieldValue::Str(msg)));
    }
    if let Some(offset) = event.ext_offset {
        r.push(("ext_offset", FieldValue::U32(offset)));
    }
    proof {
        let required = schema_fields(LogEventSchema::RuleAckFailed);
        assert(r@ =~= ack_failed_list(event));
        assert(r@[0].0@ == required[0]);
        assert(r@[1].0@ == required[1]);
        assert(r@[2].0@ == required[2]);
        assert(r@[3].0@ == required[3]);
        assert(r@[4].0@ == required[4]);
        lemma_none_missing(required, r@);
    }
    r
}

/// What is logged of an announcement of an address.
pub struct NetlinkAddrEvent<'a> {
    pub nlmsg_type: u32,
    pub nlmsg_seq: u32,
    pub family: u32,
    pub ifindex: i32,
    pub addr: &'a str,
    pub flags: u32,
    pub op_action: &'static str,
}

/// The fields of an announcement of an address.
pub fn netlink_addr_event_fields<'a>(event: NetlinkAddrEvent<'a>) -> (r: Vec<Field<'a>>)
    ensures
        r@ == seq![
            ("nlmsg_type", FieldValue::<'a>::U32(event.nlmsg_type)),
            ("nlmsg_seq", FieldValue::<'a>::U32(event.nlmsg_seq)),
            ("family", FieldValue::<'a>::U32(event.family)),
            ("ifindex", FieldValue::<'a>::I32(event.ifindex)),
            ("addr", FieldValue::<'a>::Display(event.addr)),
            ("flags", FieldValue::<'a>::U32(event.flags)),
            ("op_action", FieldValue::<'a>::Str(event.op_action)),
        ],
        missing_fields(schema_fields(LogEventSchema::NetlinkAddrEvent), r@).len() == 0,
{
    let r: Vec<Field<'a>> = vec![
        ("nlmsg_type", FieldValue::U32(event.nlmsg_type)),
        ("nlmsg_seq", FieldValue::U32(event.nlmsg_seq)),
        ("family", FieldValue::U32(event.family)),
        ("ifindex", FieldValue::I32(event.ifindex)),
        ("addr", FieldValue::display(event.addr)),
        ("flags", FieldValue::U32(event.flags)),
        ("op_action", FieldValue::Str(event.op_action)),
    ];
    proof {
        let required = schema_fields(LogEventSchema::NetlinkAddrEvent);
        assert(r@[0].0@ == required[0]);
        assert(r@[1].0@ == required[1]);
        assert(r@[2].0@ == required[2]);
        assert(r@[3].0@ == required[3]);
        assert(r@[4].0@ == required[4]);
        assert(r@[5].0@ == required[5]);
        assert(r@[6].0@ == required[6]);
        lemma_none_missing(required, r@);
    }
    r
}

} // verus!
