//! What each line of a configuration file adds to what was read before it.
use crate::text::{lemma_find_unique, split, trimmed};
use crate::toml::{
    array_read, elements, stripped, toml_read, unescaped, value_read, Elements, Toml, TomlEnd,
    ValueRead,
};
use vstd::prelude::*;

verus! {

/// Nothing read is no section and no error; after an error nothing more is read; and a line without
/// anything but space and a comment adds nothing.
pub proof fn empty_lines_add_nothing(all: Seq<Seq<char>>, line: Seq<char>)
    ensures
        toml_read(Seq::empty()).end is None,
        toml_read(Seq::empty()).section is None,
        toml_read(Seq::empty()).table.dom() == Set::<Seq<char>>::empty(),
        toml_read(all).end is Some ==> toml_read(all.push(line)) == toml_read(all),
        trimmed(stripped(line)).len() == 0 ==> toml_read(all.push(line)) == toml_read(all),
{
    assert(all.push(line).drop_last() =~= all);
}

/// A name in brackets starts the section of that name, which keeps what it holds already, and
/// leaves every other section as it is. Without the closing bracket, or without a name, it is an
/// error.
pub proof fn name_in_brackets_starts_a_section(
    all: Seq<Seq<char>>,
    line: Seq<char>,
    name: Seq<char>,
    other: Seq<char>,
)
    requires
        toml_read(all).end is None,
        trimmed(stripped(line)).len() > 0,
        trimmed(stripped(line))[0] == '[',
    ensures
        ({
            let l = trimmed(stripped(line));
            let read = toml_read(all);
            let after = toml_read(all.push(line));
            &&& l.last() != ']' ==> (after.end matches Some(TomlEnd::Error(_)))
            &&& l == seq!['['] + name + seq![']'] && trimmed(name).len() == 0
                ==> (after.end matches Some(TomlEnd::Error(_)))
            &&& l == seq!['['] + name + seq![']'] && trimmed(name).len() > 0 ==> {
                &&& after.end is None
                &&& after.section == Some(trimmed(name))
                &&& after.table.contains_key(trimmed(name))
                &&& read.table.contains_key(trimmed(name)) ==> after.table == read.table
                &&& !read.table.contains_key(trimmed(name)) ==> after.table[trimmed(name)].dom()
                    == Set::<Seq<char>>::empty()
                &&& other != trimmed(name) ==> after.table.contains_key(other)
                    == read.table.contains_key(other) && after.table[other] == read.table[other]
            }
        }),
{
    assert(all.push(line).drop_last() =~= all);
    let l = trimmed(stripped(line));
    if l == seq!['['] + name + seq![']'] {
        assert(l.subrange(1, l.len() - 1) =~= name);
        assert(l.last() == ']');
    }
}

/// A key, an equals sign and a value bind the value to the key in the current section, and change
/// nothing else. It is an error where there is no section yet, no key, no value that can be read,
/// or where the key is bound already.
pub proof fn key_and_value_are_bound(
    all: Seq<Seq<char>>,
    line: Seq<char>,
    key: Seq<char>,
    value: Seq<char>,
)
    requires
        toml_read(all).end is None,
        trimmed(stripped(line)) == key + seq!['='] + value,
        !key.contains('='),
        trimmed(stripped(line))[0] != '[',
    ensures
        ({
            let read = toml_read(all);
            let after = toml_read(all.push(line));
            let k = trimmed(key);
            &&& k.len() == 0 || read.section is None ==> (after.end matches Some(TomlEnd::Error(_)))
            &&& k.len() > 0 ==> (read.section matches Some(section) ==> match value_read(
                trimmed(value),
            ) {
                ValueRead::Error(_) => after.end matches Some(TomlEnd::Error(_)),
                ValueRead::LoneQuote => after.end == Some(TomlEnd::LoneQuote),
                ValueRead::Value(v) => if read.table[section].contains_key(k) {
                    (after.end matches Some(TomlEnd::Error(_)))
                } else {
                    &&& after.end is None
                    &&& after.section == Some(section)
                    &&& after.table[section].contains_key(k) && after.table[section][k] == v
                    &&& after.table[section] == read.table[section].insert(k, v)
                    &&& forall|other: Seq<char>|
                        other != section ==> (#[trigger] after.table.contains_key(other)
                            == read.table.contains_key(other) && after.table[other]
                            == read.table[other])
                },
            })
        }),
{
    assert(all.push(line).drop_last() =~= all);
    let l = trimmed(stripped(line));
    let n = key.len() as int;
    assert(l[n] == '=');
    assert forall|i: int| 0 <= i < n implies l[i] != '=' by {
        assert(l[i] == key[i]);
        assert(key.contains(key[i]));
    }
    lemma_find_unique(l, '=', n);
    assert(l.take(n) =~= key);
    assert(l.skip(n + 1) =~= value);
}

/// A line that is neither a section nor holds an equals sign is an error.
pub proof fn other_lines_are_errors(all: Seq<Seq<char>>, line: Seq<char>)
    requires
        toml_read(all).end is None,
        trimmed(stripped(line)).len() > 0,
        trimmed(stripped(line))[0] != '[',
        !trimmed(stripped(line)).contains('='),
    ensures
        toml_read(all.push(line)).end matches Some(TomlEnd::Error(_)),
{
    assert(all.push(line).drop_last() =~= all);
    let l = trimmed(stripped(line));
    assert forall|i: int| 0 <= i < l.len() implies l[i] != '=' by {
        assert(l.contains(l[i]));
    }
    lemma_find_unique(l, '=', l.len() as int);
}

/// An array holds the texts in quotes between its commas, in order and with their escapes undone;
/// what is only space between commas is left out, and anything else is an error.
pub proof fn arrays_hold_texts_in_order(parts: Seq<Seq<char>>, part: Seq<char>, text: Seq<char>)
    requires
        elements(parts) is Items,
    ensures
        elements(Seq::empty()) == Elements::Items(Seq::empty()),
        trimmed(part).len() == 0 ==> elements(parts.push(part)) == elements(parts),
        trimmed(part) == seq!['"'] + text + seq!['"'] || trimmed(part) == seq!['\''] + text + seq![
            '\'',
        ] ==> elements(parts.push(part)) == Elements::Items(
            elements(parts)->Items_0.push(unescaped(text)),
        ),
        trimmed(part).len() > 0 && trimmed(part)[0] != '"' && trimmed(part)[0] != '\''
            ==> elements(parts.push(part)) == Elements::Unquoted,
{
    assert(parts.push(part).drop_last() =~= parts);
    let p = trimmed(part);
    if p == seq!['"'] + text + seq!['"'] {
        assert(p[0] == '"' && p.last() == '"');
        assert(p.subrange(1, p.len() - 1) =~= text);
    }
    if p == seq!['\''] + text + seq!['\''] {
        assert(p[0] == '\'' && p.last() == '\'');
        assert(p.subrange(1, p.len() - 1) =~= text);
    }
}

/// What stands in brackets is an array of what stands between its commas; without the closing
/// bracket it is an error.
pub proof fn brackets_hold_an_array(inner: Seq<char>, s: Seq<char>)
    requires
        s.len() > 0,
        s[0] == '[',
    ensures
        s.last() != ']' ==> array_read(s) is Error && value_read(s) is Error,
        s == seq!['['] + inner + seq![']'] ==> {
            &&& value_read(s) == array_read(s)
            &&& trimmed(inner).len() == 0 ==> value_read(s) == ValueRead::Value(
                Toml::Array(Seq::empty()),
            )
            &&& trimmed(inner).len() > 0 ==> (elements(split(trimmed(inner), ',')) matches
                Elements::Items(items) ==> value_read(s) == ValueRead::Value(Toml::Array(items)))
            &&& trimmed(inner).len() > 0 && elements(split(trimmed(inner), ','))
                == Elements::Unquoted ==> value_read(s) is Error
        },
{
    reveal_strlit("true");
    reveal_strlit("false");
    assert("true"@[0] == 't' && "false"@[0] == 'f');
    if s == seq!['['] + inner + seq![']'] {
        assert(s.subrange(1, s.len() - 1) =~= inner);
        assert(s.last() == ']');
    }
}

} // verus!
