//! The subset of TOML that the configuration file is written in: sections with keys, and texts,
//! integers, booleans and lists of texts as values.
use crate::error::{AppError, ErrorView};
use crate::fx::{
    text_entries, text_map_contains, text_map_get_mut, text_map_insert, text_map_new,
};
use crate::text::{
    chars_of, dec, find, find_char, i64_value, lines, parse_i64, push_dec, split, split_chars,
    split_lines, str_eq, string_of, string_views, trim_chars, trimmed, views,
};
use rustc_hash::FxHashMap;
use vstd::prelude::*;
use vstd::slice::slice_subrange;

verus! {

/// A value.
pub enum TomlValue {
    Str(String),
    Int(i64),
    Bool(bool),
    Array(Vec<String>),
}

/// A value with its texts as characters.
pub enum Toml {
    Str(Seq<char>),
    Int(int),
    Bool(bool),
    Array(Seq<Seq<char>>),
}

impl View for TomlValue {
    type V = Toml;

    open spec fn view(&self) -> Toml {
        match self {
            TomlValue::Str(s) => Toml::Str(s@),
            TomlValue::Int(n) => Toml::Int(*n as int),
            TomlValue::Bool(b) => Toml::Bool(*b),
            TomlValue::Array(items) => Toml::Array(string_views(items@)),
        }
    }
}

// ---------------------------------------------------------------------------
// Comments
// ---------------------------------------------------------------------------

/// Where in a line one is with regard to quotes.
#[derive(Debug, Clone, Copy, PartialEq, Eq, Structural)]
pub enum QuoteState {
    Outside,
    Single,
    Double,
    /// Inside double quotes, after a backslash that takes the next character with it.
    Escaped,
}

/// Where one is after a character.
pub open spec fn quote_after(state: QuoteState, c: char) -> QuoteState {
    match state {
        QuoteState::Outside => if c == '"' {
            QuoteState::Double
        } else if c == '\'' {
            QuoteState::Single
        } else {
            QuoteState::Outside
        },
        QuoteState::Single => if c == '\'' {
            QuoteState::Outside
        } else {
            QuoteState::Single
        },
        QuoteState::Double => if c == '\\' {
            QuoteState::Escaped
        } else if c == '"' {
            QuoteState::Outside
        } else {
            QuoteState::Double
        },
        QuoteState::Escaped => QuoteState::Double,
    }
}

/// Where one is before the character at place `i`.
pub open spec fn quote_at(line: Seq<char>, i: int) -> QuoteState
    decreases i,
{
    if i <= 0 {
        QuoteState::Outside
    } else {
        quote_after(quote_at(line, i - 1), line[i - 1])
    }
}

/// The first place from `i` on at which a comment starts; the length of the line where none does.
pub open spec fn comment_from(line: Seq<char>, i: int) -> int
    decreases line.len() - i,
{
    if i >= line.len() {
        line.len() as int
    } else if line[i] == '#' && quote_at(line, i) == QuoteState::Outside {
        i
    } else {
        comment_from(line, i + 1)
    }
}

/// A line without its comment: a comment starts at the first `#` outside quotes.
pub open spec fn stripped(line: Seq<char>) -> Seq<char> {
    line.take(comment_from(line, 0))
}

/// Where a comment starts, and where none does.
proof fn lemma_comment_from(line: Seq<char>, i: int)
    requires
        0 <= i <= line.len(),
    ensures
        i <= comment_from(line, i) <= line.len(),
        forall|j: int|
            i <= j < comment_from(line, i) ==> !(#[trigger] line[j] == '#' && quote_at(line, j)
                == QuoteState::Outside),
    decreases line.len() - i,
{
    if i < line.len() && !(line[i] == '#' && quote_at(line, i) == QuoteState::Outside) {
        lemma_comment_from(line, i + 1);
    }
}

/// Quotes are the same in the first part of a line.
proof fn lemma_quote_at_prefix(line: Seq<char>, n: int, i: int)
    requires
        0 <= i <= n <= line.len(),
    ensures
        quote_at(line.take(n), i) == quote_at(line, i),
    decreases i,
{
    if i > 0 {
        lemma_quote_at_prefix(line, n, i - 1);
    }
}

/// Where no comment starts, none is found.
proof fn lemma_no_comment(line: Seq<char>, i: int)
    requires
        0 <= i <= line.len(),
        forall|j: int|
            i <= j < line.len() ==> !(#[trigger] line[j] == '#' && quote_at(line, j)
                == QuoteState::Outside),
    ensures
        comment_from(line, i) == line.len(),
    decreases line.len() - i,
{
    if i < line.len() {
        assert(!(line[i] == '#' && quote_at(line, i) == QuoteState::Outside));
        lemma_no_comment(line, i + 1);
    }
}

/// A line without its comment has no comment.
pub proof fn stripped_line_has_no_comment(line: Seq<char>)
    ensures
        stripped(stripped(line)) == stripped(line),
{
    lemma_comment_from(line, 0);
    let n = comment_from(line, 0);
    let kept = line.take(n);
    assert forall|j: int| 0 <= j < kept.len() implies !(#[trigger] kept[j] == '#' && quote_at(
        kept,
        j,
    ) == QuoteState::Outside) by {
        lemma_quote_at_prefix(line, n, j);
        assert(line[j] == kept[j]);
    }
    lemma_no_comment(kept, 0);
    assert(kept.take(kept.len() as int) =~= kept);
}

/// Where one is after a character.
fn next_quote_state(state: QuoteState, c: char) -> (r: QuoteState)
    ensures
        r == quote_after(state, c),
{
    match state {
        QuoteState::Outside => if c == '"' {
            QuoteState::Double
        } else if c == '\'' {
            QuoteState::Single
        } else {
            QuoteState::Outside
        },
        QuoteState::Single => if c == '\'' {
            QuoteState::Outside
        } else {
            QuoteState::Single
        },
        QuoteState::Double => if c == '\\' {
            QuoteState::Escaped
        } else if c == '"' {
            QuoteState::Outside
        } else {
            QuoteState::Double
        },
        QuoteState::Escaped => QuoteState::Double,
    }
}

/// A line without its comment.
pub fn strip_comment(line: &str) -> (r: &str)
    ensures
        r@ == stripped(line@),
{
    let mut state = QuoteState::Outside;
    let mut i: usize = 0;
    let len: usize = line.unicode_len();
    while i < len
        invariant
            i <= len,
            len == line@.len(),
            state == quote_at(line@, i as int),
            comment_from(line@, 0) == comment_from(line@, i as int),
        decreases len - i,
    {
        let c: char = line.get_char(i);
        if c == '#' && state == QuoteState::Outside {
            return line.substring_char(0, i);
        }
        state = next_quote_state(state, c);
        i = i + 1;
    }
    assert(line@.take(len as int) =~= line@);
    line
}

// ---------------------------------------------------------------------------
// Values
// ---------------------------------------------------------------------------

/// The character that a backslash and a letter stand for, where they do.
pub open spec fn escape_of(c: char) -> Option<char> {
    if c == 'n' {
        Some('\n')
    } else if c == 't' {
        Some('\t')
    } else if c == '\\' || c == '"' || c == '\'' {
        Some(c)
    } else {
        None
    }
}

/// A text with what its backslashes stand for put in their place. A backslash that stands for
/// nothing stays.
pub open spec fn unescaped(s: Seq<char>) -> Seq<char>
    decreases s.len(),
{
    if s.len() == 0 {
        Seq::empty()
    } else if s[0] != '\\' {
        seq![s[0]] + unescaped(s.skip(1))
    } else if s.len() == 1 {
        seq!['\\']
    } else {
        (match escape_of(s[1]) {
            Some(c) => seq![c],
            None => seq!['\\', s[1]],
        }) + unescaped(s.skip(2))
    }
}

/// Puts what backslashes stand for in their place.
pub fn unescape_string(s: &str) -> (r: String)
    ensures
        r@ == unescaped(s@),
{
    let chars = chars_of(s);
    unescape_chars(chars.as_slice())
}

/// Puts what backslashes stand for in their place.
fn unescape_chars(chars: &[char]) -> (r: String)
    ensures
        r@ == unescaped(chars@),
{
    let mut out = String::new();
    let n: usize = chars.len();
    let mut i: usize = 0;
    assert(chars@.skip(0) =~= chars@);
    assert(out@ + unescaped(chars@) =~= unescaped(chars@));
    while i < n
        invariant
            n == chars@.len(),
            i <= n,
            out@ + unescaped(chars@.skip(i as int)) == unescaped(chars@),
        decreases n - i,
    {
        let ghost had = out@;
        let ghost rest = chars@.skip(i as int);
        let c: char = chars[i];
        assert(rest[0] == c);
        assert(rest.skip(1) =~= chars@.skip(i + 1));
        if c != '\\' {
            out.push(c);
            i = i + 1;
            assert(out@ + unescaped(rest.skip(1)) =~= had + (seq![c] + unescaped(rest.skip(1))));
        } else if n - i == 1 {
            out.push('\\');
            i = i + 1;
            assert(chars@.skip(n as int).len() == 0);
            assert(out@ + unescaped(chars@.skip(n as int)) =~= had + seq!['\\']);
        } else {
            let d: char = chars[i + 1];
            assert(rest[1] == d);
            assert(rest.skip(2) =~= chars@.skip(i + 2));
            let ghost piece = match escape_of(d) {
                Some(e) => seq![e],
                None => seq!['\\', d],
            };
            if d == 'n' {
                out.push('\n');
            } else if d == 't' {
                out.push('\t');
            } else if d == '\\' || d == '"' || d == '\'' {
                out.push(d);
            } else {
                out.push('\\');
                out.push(d);
            }
            assert(out@ =~= had + piece);
            i = i + 2;
            assert(out@ + unescaped(rest.skip(2)) =~= had + (piece + unescaped(rest.skip(2))));
        }
    }
    assert(chars@.skip(n as int).len() == 0);
    assert(out@ + unescaped(chars@.skip(n as int)) =~= out@);
    out
}

/// Whether a text starts and ends with a character; one character can be both.
pub open spec fn framed_by(s: Seq<char>, c: char) -> bool {
    s.len() > 0 && s[0] == c && s.last() == c
}

/// Whether a text starts and ends with the same quote.
pub open spec fn in_quotes(s: Seq<char>) -> bool {
    framed_by(s, '"') || framed_by(s, '\'')
}

/// Whether a text starts and ends with the same quote.
fn is_in_quotes(chars: &[char]) -> (r: bool)
    ensures
        r == in_quotes(chars@),
{
    let n: usize = chars.len();
    n > 0 && chars[0] == chars[n - 1] && (chars[0] == '"' || chars[0] == '\'')
}

/// What the elements of a list are read as.
pub enum Elements {
    Items(Seq<Seq<char>>),
    /// An element that is not in quotes.
    Unquoted,
    /// An element that is a single quote, which opens and closes nothing. Lists with one before
    /// any element that is not in quotes cannot be read.
    LoneQuote,
}

/// What the parts of a list between its commas are read as. Empty parts are passed over.
pub open spec fn elements(parts: Seq<Seq<char>>) -> Elements
    decreases parts.len(),
{
    if parts.len() == 0 {
        Elements::Items(Seq::empty())
    } else {
        match elements(parts.drop_last()) {
            Elements::Items(items) => {
                let part = trimmed(parts.last());
                if part.len() == 0 {
                    Elements::Items(items)
                } else if !in_quotes(part) {
                    Elements::Unquoted
                } else if part.len() == 1 {
                    Elements::LoneQuote
                } else {
                    Elements::Items(
                        items.push(unescaped(part.subrange(1, part.len() - 1))),
                    )
                }
            },
            other => other,
        }
    }
}

/// What a value is read as.
pub enum ValueRead {
    Value(Toml),
    Error(Seq<char>),
    /// The value is a list that cannot be read.
    LoneQuote,
}

/// What a text that starts with a bracket is read as.
pub open spec fn array_read(s: Seq<char>) -> ValueRead {
    if s.last() != ']' {
        ValueRead::Error("unterminated array"@)
    } else {
        let inner = trimmed(s.subrange(1, s.len() - 1));
        if inner.len() == 0 {
            ValueRead::Value(Toml::Array(Seq::empty()))
        } else {
            match elements(split(inner, ',')) {
                Elements::Items(items) => ValueRead::Value(Toml::Array(items)),
                Elements::Unquoted => ValueRead::Error("array elements must be quoted strings"@),
                Elements::LoneQuote => ValueRead::LoneQuote,
            }
        }
    }
}

/// What a text is read as.
pub open spec fn value_read(s: Seq<char>) -> ValueRead {
    if s.len() == 0 {
        ValueRead::Error("empty value"@)
    } else if s == "true"@ {
        ValueRead::Value(Toml::Bool(true))
    } else if s == "false"@ {
        ValueRead::Value(Toml::Bool(false))
    } else if in_quotes(s) {
        if s.len() < 2 {
            ValueRead::Error("malformed string"@)
        } else {
            ValueRead::Value(Toml::Str(unescaped(s.subrange(1, s.len() - 1))))
        }
    } else if s[0] == '[' {
        array_read(s)
    } else {
        match i64_value(s) {
            Some(n) => ValueRead::Value(Toml::Int(n)),
            None => ValueRead::Error("cannot parse value: "@ + s),
        }
    }
}

/// A message about a line, whose number is counted from zero.
pub open spec fn line_message(line_no: nat, msg: Seq<char>) -> Seq<char> {
    "line "@ + dec(line_no + 1) + ": "@ + msg
}

/// An error about a line, whose number is counted from zero.
pub fn parse_err(line_no: usize, msg: &str) -> (r: AppError)
    ensures
        r@ == ErrorView::Config(line_message(line_no as nat, msg@)),
{
    let mut s = String::new();
    s.append("line ");
    push_dec(&mut s, line_no as u128 + 1);
    s.append(": ");
    s.append(msg);
    assert(s@ =~= line_message(line_no as nat, msg@));
    AppError::Config(s)
}

/// The elements of a list as far as they can be read: `Err` with whether a lone quote stopped it.
fn read_elements(parts: &Vec<&[char]>) -> (r: Result<Vec<String>, bool>)
    ensures
        match r {
            Ok(items) => elements(views(parts@)) == Elements::Items(string_views(items@)),
            Err(lone) => elements(views(parts@)) == (if lone {
                Elements::LoneQuote
            } else {
                Elements::Unquoted
            }),
        },
{
    let ghost all = views(parts@);
    let mut items: Vec<String> = Vec::new();
    assert(all.subrange(0, 0) =~= Seq::<Seq<char>>::empty());
    assert(string_views(items@) =~= Seq::<Seq<char>>::empty());
    for i in 0..parts.len()
        invariant
            all == views(parts@),
            elements(all.subrange(0, i as int)) == Elements::Items(string_views(items@)),
    {
        let ghost had = string_views(items@);
        proof {
            assert(all.subrange(0, i + 1).drop_last() =~= all.subrange(0, i as int));
            assert(all.subrange(0, i + 1).last() == parts@[i as int]@);
        }
        let part = trim_chars(parts[i]);
        let n: usize = part.len();
        if n != 0 {
            if !is_in_quotes(part) {
                proof {
                    lemma_elements_stop(all, i + 1);
                }
                return Err(false);
            }
            if n == 1 {
                proof {
                    lemma_elements_stop(all, i + 1);
                }
                return Err(true);
            }
            let item = unescape_chars(slice_subrange(part, 1, n - 1));
            items.push(item);
            assert(string_views(items@) =~= had.push(item@));
        }
    }
    assert(all.subrange(0, all.len() as int) =~= all);
    Ok(items)
}

/// Where the first elements cannot be read, all of them cannot.
proof fn lemma_elements_stop(parts: Seq<Seq<char>>, n: int)
    requires
        0 <= n <= parts.len(),
        elements(parts.subrange(0, n)) !is Items,
    ensures
        elements(parts) == elements(parts.subrange(0, n)),
    decreases parts.len() - n,
{
    if n == parts.len() {
        assert(parts.subrange(0, n) =~= parts);
    } else {
        assert(parts.subrange(0, n + 1).drop_last() =~= parts.subrange(0, n));
        lemma_elements_stop(parts, n + 1);
    }
}

/// Reads a text that starts with a bracket. `None` where it cannot be read.
fn read_array(chars: &[char], line_no: usize) -> (r: Option<Result<TomlValue, AppError>>)
    requires
        chars@.len() > 0,
        chars@[0] == '[',
    ensures
        match r {
            Some(Ok(v)) => array_read(chars@) == ValueRead::Value(v@),
            Some(Err(e)) => (array_read(chars@) matches ValueRead::Error(m) && e@
                == ErrorView::Config(line_message(line_no as nat, m))),
            None => array_read(chars@) == ValueRead::LoneQuote,
        },
{
    let n: usize = chars.len();
    if chars[n - 1] != ']' {
        return Some(Err(parse_err(line_no, "unterminated array")));
    }
    assert(n > 1);
    let inner = trim_chars(slice_subrange(chars, 1, n - 1));
    if inner.len() == 0 {
        let v = TomlValue::Array(Vec::new());
        assert(v@ == Toml::Array(Seq::empty())) by {
            assert(v@->Array_0 =~= Seq::<Seq<char>>::empty());
        }
        return Some(Ok(v));
    }
    let parts = split_chars(inner, ',');
    match read_elements(&parts) {
        Ok(items) => Some(Ok(TomlValue::Array(items))),
        Err(lone) => if lone {
            None
        } else {
            Some(Err(parse_err(line_no, "array elements must be quoted strings")))
        },
    }
}

/// Reads a text that starts with a bracket.
pub fn parse_array(s: &str, line_no: usize) -> (r: Result<TomlValue, AppError>)
    requires
        s@.len() > 0,
        s@[0] == '[',
        array_read(s@) !is LoneQuote,
    ensures
        match r {
            Ok(v) => array_read(s@) == ValueRead::Value(v@),
            Err(e) => (array_read(s@) matches ValueRead::Error(m) && e@ == ErrorView::Config(
                line_message(line_no as nat, m),
            )),
        },
{
    let chars = chars_of(s);
    match read_array(chars.as_slice(), line_no) {
        Some(r) => r,
        None => Err(parse_err(line_no, "array elements must be quoted strings")),
    }
}

/// Reads a text. `None` where it cannot be read.
fn read_value(s: &str, line_no: usize) -> (r: Option<Result<TomlValue, AppError>>)
    ensures
        match r {
            Some(Ok(v)) => value_read(s@) == ValueRead::Value(v@),
            Some(Err(e)) => (value_read(s@) matches ValueRead::Error(m) && e@ == ErrorView::Config(
                line_message(line_no as nat, m),
            )),
            None => value_read(s@) == ValueRead::LoneQuote,
        },
{
    let chars = chars_of(s);
    let n: usize = chars.len();
    if n == 0 {
        return Some(Err(parse_err(line_no, "empty value")));
    }
    if str_eq(s, "true") {
        return Some(Ok(TomlValue::Bool(true)));
    }
    if str_eq(s, "false") {
        return Some(Ok(TomlValue::Bool(false)));
    }
    if is_in_quotes(chars.as_slice()) {
        if n < 2 {
            return Some(Err(parse_err(line_no, "malformed string")));
        }
        let text = unescape_chars(slice_subrange(chars.as_slice(), 1, n - 1));
        return Some(Ok(TomlValue::Str(text)));
    }
    if chars[0] == '[' {
        return read_array(chars.as_slice(), line_no);
    }
    if let Some(v) = parse_i64(chars.as_slice()) {
        return Some(Ok(TomlValue::Int(v)));
    }
    let mut msg = String::new();
    msg.append("cannot parse value: ");
    msg.append(s);
    assert(msg@ =~= "cannot parse value: "@ + s@);
    Some(Err(parse_err(line_no, msg.as_str())))
}

/// Reads a text.
pub fn parse_value(s: &str, line_no: usize) -> (r: Result<TomlValue, AppError>)
    requires
        value_read(s@) !is LoneQuote,
    ensures
        match r {
            Ok(v) => value_read(s@) == ValueRead::Value(v@),
            Err(e) => (value_read(s@) matches ValueRead::Error(m) && e@ == ErrorView::Config(
                line_message(line_no as nat, m),
            )),
        },
{
    match read_value(s, line_no) {
        Some(r) => r,
        None => Err(parse_err(line_no, "array elements must be quoted strings")),
    }
}

// ---------------------------------------------------------------------------
// Sections and keys
// ---------------------------------------------------------------------------

/// The keys of a section.
pub type TomlSection = FxHashMap<String, TomlValue>;

/// The sections of a file.
pub type TomlTable = FxHashMap<String, FxHashMap<String, TomlValue>>;

/// What a section binds its keys to.
pub open spec fn section_view(section: TomlSection) -> Map<Seq<char>, Toml> {
    text_entries(section@).map_values(|v: TomlValue| v@)
}

/// What each section binds its keys to.
pub open spec fn table_view(table: TomlTable) -> Map<Seq<char>, Map<Seq<char>, Toml>> {
    text_entries(table@).map_values(|s: TomlSection| section_view(s))
}

/// Why the reading of a file ends before its end.
pub enum TomlEnd {
    Error(Seq<char>),
    /// A list that cannot be read.
    LoneQuote,
}

/// A file as far as it was read.
pub struct TomlRead {
    pub table: Map<Seq<char>, Map<Seq<char>, Toml>>,
    pub section: Option<Seq<char>>,
    pub end: Option<TomlEnd>,
}

/// Nothing read yet.
pub open spec fn nothing_read() -> TomlRead {
    TomlRead { table: Map::empty(), section: None, end: None }
}

/// The reading ends with an error.
pub open spec fn ends_with(read: TomlRead, line_no: nat, msg: Seq<char>) -> TomlRead {
    TomlRead { end: Some(TomlEnd::Error(line_message(line_no, msg))), ..read }
}

/// What the header of a section does. The line has no comment and no white space around it.
pub open spec fn header_line(read: TomlRead, line_no: nat, line: Seq<char>) -> TomlRead {
    if line.last() != ']' {
        ends_with(read, line_no, "malformed section header"@)
    } else {
        let name = trimmed(line.subrange(1, line.len() - 1));
        if name.len() == 0 {
            ends_with(read, line_no, "empty section name"@)
        } else {
            TomlRead {
                table: if read.table.contains_key(name) {
                    read.table
                } else {
                    read.table.insert(name, Map::empty())
                },
                section: Some(name),
                end: None,
            }
        }
    }
}

/// What is said of a key that a section has twice.
pub open spec fn duplicate_key(key: Seq<char>, section: Seq<char>) -> Seq<char> {
    "duplicate key '"@ + key + "' in ["@ + section + "]"@
}

/// What a key and its value do. The line has no comment and no white space around it.
pub open spec fn key_line(read: TomlRead, line_no: nat, line: Seq<char>) -> TomlRead {
    let k = find(line, '=');
    if k >= line.len() {
        ends_with(read, line_no, "expected key = value"@)
    } else {
        let key = trimmed(line.take(k));
        let value = trimmed(line.skip(k + 1));
        if key.len() == 0 {
            ends_with(read, line_no, "empty key"@)
        } else {
            match read.section {
                None => ends_with(read, line_no, "key outside of section"@),
                Some(section) => match value_read(value) {
                    ValueRead::Error(msg) => ends_with(read, line_no, msg),
                    ValueRead::LoneQuote => TomlRead { end: Some(TomlEnd::LoneQuote), ..read },
                    ValueRead::Value(v) => if read.table[section].contains_key(key) {
                        ends_with(read, line_no, duplicate_key(key, section))
                    } else {
                        TomlRead {
                            table: read.table.insert(section, read.table[section].insert(key, v)),
                            ..read
                        }
                    },
                },
            }
        }
    }
}

/// What a line does.
pub open spec fn toml_line(read: TomlRead, line_no: nat, raw: Seq<char>) -> TomlRead {
    let line = trimmed(stripped(raw));
    if line.len() == 0 {
        read
    } else if line[0] == '[' {
        header_line(read, line_no, line)
    } else {
        key_line(read, line_no, line)
    }
}

/// What lines are read as. Nothing is read after the reading has ended.
pub open spec fn toml_read(all: Seq<Seq<char>>) -> TomlRead
    decreases all.len(),
{
    if all.len() == 0 {
        nothing_read()
    } else {
        let before = toml_read(all.drop_last());
        if before.end is Some {
            before
        } else {
            toml_line(before, (all.len() - 1) as nat, all.last())
        }
    }
}

/// What a file is read as.
pub open spec fn toml_of(text: Seq<char>) -> TomlRead {
    toml_read(lines(text))
}

/// Once the reading has ended, further lines change nothing.
proof fn lemma_read_ended(all: Seq<Seq<char>>, n: int)
    requires
        0 <= n <= all.len(),
        toml_read(all.subrange(0, n)).end is Some,
    ensures
        toml_read(all) == toml_read(all.subrange(0, n)),
    decreases all.len() - n,
{
    if n == all.len() {
        assert(all.subrange(0, n) =~= all);
    } else {
        assert(all.subrange(0, n + 1).drop_last() =~= all.subrange(0, n));
        lemma_read_ended(all, n + 1);
    }
}

/// The section that is current has its place in the table, and has a name.
pub open spec fn section_is_there(read: TomlRead) -> bool {
    read.section matches Some(name) ==> read.table.contains_key(name) && name.len() > 0
}

/// A file as far as it was read.
struct Reader {
    table: TomlTable,
    section: Option<String>,
}

impl View for Reader {
    type V = TomlRead;

    closed spec fn view(&self) -> TomlRead {
        TomlRead {
            table: table_view(self.table),
            section: match self.section {
                Some(name) => Some(name@),
                None => None,
            },
            end: None,
        }
    }
}

/// Why the reading of a file ends before its end.
enum ReadEnd {
    Error(AppError),
    LoneQuote,
}

impl ReadEnd {
    /// Whether this is the end of a reading.
    closed spec fn is_end(&self, end: Option<TomlEnd>) -> bool {
        match self {
            ReadEnd::Error(e) => (end matches Some(TomlEnd::Error(m)) && e@ == ErrorView::Config(m)),
            ReadEnd::LoneQuote => end == Some(TomlEnd::LoneQuote),
        }
    }
}

/// The error of a line.
fn line_fails(line_no: usize, msg: &str) -> (r: Result<(), ReadEnd>)
    ensures
        r matches Err(end) && end.is_end(Some(TomlEnd::Error(line_message(line_no as nat, msg@)))),
{
    Err(ReadEnd::Error(parse_err(line_no, msg)))
}

impl Reader {
    /// Reads the header of a section.
    fn read_header(&mut self, line_no: usize, line: &[char]) -> (r: Result<(), ReadEnd>)
        requires
            line@.len() > 0,
            line@[0] == '[',
        ensures
            match r {
                Ok(_) => final(self)@ == header_line(old(self)@, line_no as nat, line@),
                Err(end) => end.is_end(header_line(old(self)@, line_no as nat, line@).end),
            },
    {
        let n: usize = line.len();
        if line[n - 1] != ']' {
            return line_fails(line_no, "malformed section header");
        }
        assert(n > 1);
        let name = trim_chars(slice_subrange(line, 1, n - 1));
        if name.len() == 0 {
            return line_fails(line_no, "empty section name");
        }
        let ghost before = self@;
        let name = string_of(name);
        if !text_map_contains(&self.table, name.as_str()) {
            let section: TomlSection = text_map_new();
            assert(section_view(section) =~= Map::<Seq<char>, Toml>::empty());
            text_map_insert(&mut self.table, name.as_str().to_owned(), section);
            assert(table_view(self.table) =~= before.table.insert(name@, Map::empty()));
        }
        self.section = Some(name);
        Ok(())
    }

    /// Binds a key of the current section to its value.
    fn bind(&mut self, line_no: usize, name: &str, key: &str, value: TomlValue) -> (r: Result<
        (),
        ReadEnd,
    >)
        requires
            old(self)@.section == Some(name@),
            old(self)@.table.contains_key(name@),
        ensures
            ({
                let read = old(self)@;
                let section = read.table[name@];
                match r {
                    Ok(_) => !section.contains_key(key@) && final(self)@ == (TomlRead {
                        table: read.table.insert(name@, section.insert(key@, value@)),
                        ..read
                    }),
                    Err(end) => section.contains_key(key@) && end.is_end(
                        Some(
                            TomlEnd::Error(
                                line_message(line_no as nat, duplicate_key(key@, name@)),
                            ),
                        ),
                    ),
                }
            }),
    {
        let ghost read = self@;
        let ghost tables = text_entries(self.table@);
        assert(tables.contains_key(name@));
        let mut fresh = false;
        if let Some(section) = text_map_get_mut(&mut self.table, name) {
            let ghost had = *section;
            assert(section_view(had) == read.table[name@]);
            assert(section_view(had).contains_key(key@) == text_entries(had@).contains_key(key@));
            if !text_map_contains(section, key) {
                text_map_insert(section, key.to_owned(), value);
                fresh = true;
                assert(section_view(*section) =~= section_view(had).insert(key@, value@));
            }
        }
        if fresh {
            assert(self@.table =~= read.table.insert(
                name@,
                read.table[name@].insert(key@, value@),
            ));
            return Ok(());
        }
        let mut msg = String::new();
        msg.append("duplicate key '");
        msg.append(key);
        msg.append("' in [");
        msg.append(name);
        msg.append("]");
        assert(msg@ =~= duplicate_key(key@, name@));
        line_fails(line_no, msg.as_str())
    }

    /// Reads a key and its value.
    fn read_key(&mut self, line_no: usize, line: &[char]) -> (r: Result<(), ReadEnd>)
        requires
            section_is_there(old(self)@),
        ensures
            match r {
                Ok(_) => final(self)@ == key_line(old(self)@, line_no as nat, line@),
                Err(end) => end.is_end(key_line(old(self)@, line_no as nat, line@).end),
            },
    {
        let n: usize = line.len();
        let k: usize = find_char(line, '=');
        if k >= n {
            return line_fails(line_no, "expected key = value");
        }
        assert(line@.subrange(0, k as int) =~= line@.take(k as int));
        assert(line@.subrange(k + 1, n as int) =~= line@.skip(k + 1));
        let key = trim_chars(slice_subrange(line, 0, k));
        let value_chars = trim_chars(slice_subrange(line, k + 1, n));
        if key.len() == 0 {
            return line_fails(line_no, "empty key");
        }
        let name = match &self.section {
            None => {
                return line_fails(line_no, "key outside of section");
            },
            Some(name) => name.as_str().to_owned(),
        };
        let text = string_of(value_chars);
        match read_value(text.as_str(), line_no) {
            None => Err(ReadEnd::LoneQuote),
            Some(Err(e)) => Err(ReadEnd::Error(e)),
            Some(Ok(value)) => {
                let key = string_of(key);
                self.bind(line_no, name.as_str(), key.as_str(), value)
            },
        }
    }

    /// Reads a line.
    fn read_line(&mut self, line_no: usize, raw: &[char]) -> (r: Result<(), ReadEnd>)
        requires
            section_is_there(old(self)@),
        ensures
            match r {
                Ok(_) => final(self)@ == toml_line(old(self)@, line_no as nat, raw@)
                    && section_is_there(final(self)@),
                Err(end) => end.is_end(toml_line(old(self)@, line_no as nat, raw@).end),
            },
    {
        let text = string_of(raw);
        let kept = chars_of(strip_comment(text.as_str()));
        let line = trim_chars(kept.as_slice());
        if line.len() == 0 {
            return Ok(());
        }
        if line[0] == '[' {
            self.read_header(line_no, line)
        } else {
            self.read_key(line_no, line)
        }
    }
}

/// Reads a file.
fn read_toml(text: &str) -> (r: Result<TomlTable, ReadEnd>)
    ensures
        match r {
            Ok(table) => toml_of(text@).end is None && table_view(table) == toml_of(text@).table,
            Err(end) => end.is_end(toml_of(text@).end),
        },
{
    let chars = chars_of(text);
    let pieces = split_lines(chars.as_slice());
    let ghost all = views(pieces@);
    let mut reader = Reader { table: text_map_new(), section: None };
    assert(all.subrange(0, 0) =~= Seq::<Seq<char>>::empty());
    assert(reader@.table =~= nothing_read().table);
    for i in 0..pieces.len()
        invariant
            all == views(pieces@),
            all == lines(text@),
            reader@ == toml_read(all.subrange(0, i as int)),
            section_is_there(reader@),
    {
        proof {
            assert(all.subrange(0, i + 1).drop_last() =~= all.subrange(0, i as int));
            assert(all.subrange(0, i + 1).last() == pieces@[i as int]@);
        }
        if let Err(end) = reader.read_line(i, pieces[i]) {
            proof {
                lemma_read_ended(all, i + 1);
            }
            return Err(end);
        }
    }
    assert(all.subrange(0, all.len() as int) =~= all);
    Ok(reader.table)
}

/// Whether a file holds a list that cannot be read: one of its elements is a single quote.
pub fn has_lone_quote(text: &str) -> (r: bool)
    ensures
        r == (toml_of(text@).end == Some(TomlEnd::LoneQuote)),
{
    match read_toml(text) {
        Err(ReadEnd::LoneQuote) => true,
        _ => false,
    }
}

/// Reads a file.
pub fn parse_toml(text: &str) -> (r: Result<TomlTable, AppError>)
    requires
        toml_of(text@).end != Some(TomlEnd::LoneQuote),
    ensures
        match r {
            Ok(table) => toml_of(text@).end is None && table_view(table) == toml_of(text@).table,
            Err(e) => (toml_of(text@).end matches Some(TomlEnd::Error(m)) && e@
                == ErrorView::Config(m)),
        },
{
    match read_toml(text) {
        Ok(table) => Ok(table),
        Err(ReadEnd::Error(e)) => Err(e),
        Err(ReadEnd::LoneQuote) => Err(AppError::config("array elements must be quoted strings")),
    }
}

} // verus!
