//! What the daemon is told to do, stated on what the text of its configuration binds.
use crate::config::{
    all_listed, checked, cidr_ip, cidr_of, cidrs_read, flag_bit, flags_read, ips_read, text_outcome,
    want_array, want_bool, want_str, want_u64, Checked, Raw, Section,
};
use crate::ip_key::{ip_of_text, IpAddr};
use crate::logger::{level_of, Level};
use crate::path::joined_path;
use crate::text::{find, lemma_find_unique, lines, unsigned_value};
use crate::toml::{toml_of, toml_read, Toml, TomlEnd};
use vstd::prelude::*;
use vstd::utf8::encode_utf8;

verus! {

// ---------------------------------------------------------------------------
// Numbers
// ---------------------------------------------------------------------------

/// The section that is current has its place in the table.
proof fn lemma_current_section_is_there(all: Seq<Seq<char>>)
    ensures
        toml_read(all).section matches Some(name) ==> toml_read(all).table.contains_key(name),
    decreases all.len(),
{
    if all.len() > 0 {
        lemma_current_section_is_there(all.drop_last());
    }
}

/// The numbers of a file are 64-bit signed.
pub proof fn numbers_of_a_file_fit(all: Seq<Seq<char>>, section: Seq<char>, key: Seq<char>)
    requires
        toml_read(all).table.contains_key(section),
        toml_read(all).table[section].contains_key(key),
    ensures
        toml_read(all).table[section][key] matches Toml::Int(n) ==> i64::MIN <= n <= i64::MAX,
    decreases all.len(),
{
    if all.len() > 0 {
        let fewer = all.drop_last();
        let before = toml_read(fewer);
        lemma_current_section_is_there(fewer);
        if before.table.contains_key(section) && before.table[section].contains_key(key) {
            numbers_of_a_file_fit(fewer, section, key);
        }
    }
}

/// Each number of the options is the one that the file binds to its key: how long it must be
/// quiet, and how long a change may wait at most, but no less than it must be quiet; how many
/// changes make a batch; the priority and the table of the rules, of which the low 32 bits count.
#[verifier::rlimit(40)]
pub proof fn numbers_are_those_of_the_file(
    text: Seq<char>,
    path: Seq<char>,
    work_dir: Seq<u8>,
    config_path: Seq<u8>,
    ips: Seq<Option<IpAddr>>,
    cidr_addrs: Seq<Option<IpAddr>>,
    debounce: int,
    debounce_max: int,
    batch_max: int,
    pref: int,
    table_id: int,
)
    requires
        text_outcome(text, path) is Read,
        checked(
            text_outcome(text, path)->Read_0,
            work_dir,
            config_path,
            ips,
            cidr_addrs,
        ) is Ok,
        toml_of(text).table["daemon"@]["debounce_ms"@] == Toml::Int(debounce),
        toml_of(text).table["daemon"@]["debounce_max_ms"@] == Toml::Int(debounce_max),
        toml_of(text).table["daemon"@]["batch_max"@] == Toml::Int(batch_max),
        toml_of(text).table["rule"@]["pref"@] == Toml::Int(pref),
        toml_of(text).table["rule"@]["table_id"@] == Toml::Int(table_id),
    ensures
        ({
            let c = checked(
                text_outcome(text, path)->Read_0,
                work_dir,
                config_path,
                ips,
                cidr_addrs,
            )->Ok_0;
            &&& c.debounce_ms == debounce
            &&& debounce_max >= debounce ==> c.debounce_max_ms == debounce_max
            &&& debounce_max < debounce ==> c.debounce_max_ms == debounce
            &&& batch_max <= usize::MAX ==> c.batch_max == batch_max
            &&& c.pref == pref % 0x1_0000_0000
            &&& c.table_id == table_id % 0x1_0000_0000
        }),
{
    let all = lines(text);
    let daemon = toml_of(text).table["daemon"@];
    let rule = toml_of(text).table["rule"@];
    assert(toml_of(text).end !is Some || toml_of(text).end == Some(TomlEnd::LoneQuote));
    assert(daemon.contains_key("debounce_ms"@));
    assert(daemon.contains_key("debounce_max_ms"@));
    assert(daemon.contains_key("batch_max"@));
    assert(rule.contains_key("pref"@));
    assert(rule.contains_key("table_id"@));
    numbers_of_a_file_fit(all, "daemon"@, "debounce_ms"@);
    numbers_of_a_file_fit(all, "daemon"@, "debounce_max_ms"@);
    numbers_of_a_file_fit(all, "daemon"@, "batch_max"@);
    numbers_of_a_file_fit(all, "rule"@, "pref"@);
    numbers_of_a_file_fit(all, "rule"@, "table_id"@);
    let b = batch_max as u64;
    let p = pref as u64;
    let t = table_id as u64;
    assert(p as u32 == p % 0x1_0000_0000) by (bit_vector);
    assert(t as u32 == t % 0x1_0000_0000) by (bit_vector);
}

/// The other options are what the file binds to their keys: whether IPv6 is used, the level of the
/// log by its word, and the lists of the filters, which may be left out.
#[verifier::rlimit(40)]
pub proof fn words_are_those_of_the_file(
    text: Seq<char>,
    path: Seq<char>,
    work_dir: Seq<u8>,
    config_path: Seq<u8>,
    ips: Seq<Option<IpAddr>>,
    cidr_addrs: Seq<Option<IpAddr>>,
)
    requires
        text_outcome(text, path) is Read,
        checked(
            text_outcome(text, path)->Read_0,
            work_dir,
            config_path,
            ips,
            cidr_addrs,
        ) is Ok,
    ensures
        ({
            let raw = text_outcome(text, path)->Read_0;
            let c = checked(raw, work_dir, config_path, ips, cidr_addrs)->Ok_0;
            let table = toml_of(text).table;
            let log = table["log"@];
            let filters = table["filters"@];
            &&& c.work_dir == work_dir
            &&& c.config_path == config_path
            &&& table["daemon"@]["ipv6"@] == Toml::Bool(c.ipv6)
            &&& log["level"@] == Toml::Str("error"@) <==> c.log_level == Level::Error
            &&& log["level"@] == Toml::Str("warn"@) <==> c.log_level == Level::Warn
            &&& log["level"@] == Toml::Str("info"@) <==> c.log_level == Level::Info
            &&& log["level"@] == Toml::Str("debug"@) <==> c.log_level == Level::Debug
            &&& log["file"@] == Toml::Str(raw.log.file)
            &&& c.log_file == joined_path(work_dir, encode_utf8(raw.log.file))
            &&& raw.log.file.len() > 0
            &&& filters.contains_key("ignore_addr_flags"@) ==> filters["ignore_addr_flags"@]
                == Toml::Array(raw.filters.ignore_addr_flags)
            &&& !filters.contains_key("ignore_addr_flags"@)
                ==> raw.filters.ignore_addr_flags.len() == 0
            &&& filters.contains_key("ignore_ips"@) ==> filters["ignore_ips"@] == Toml::Array(
                raw.filters.ignore_ips,
            )
            &&& !filters.contains_key("ignore_ips"@) ==> raw.filters.ignore_ips.len() == 0
            &&& filters.contains_key("ignore_cidrs"@) ==> filters["ignore_cidrs"@] == Toml::Array(
                raw.filters.ignore_cidrs,
            )
            &&& !filters.contains_key("ignore_cidrs"@) ==> raw.filters.ignore_cidrs.len() == 0
        }),
{
    reveal_strlit("error");
    reveal_strlit("warn");
    reveal_strlit("info");
    reveal_strlit("debug");
    assert("error"@[0] == 'e' && "warn"@[0] == 'w' && "info"@[0] == 'i' && "debug"@[0] == 'd');
    let raw = text_outcome(text, path)->Read_0;
    if raw.log.file.len() == 0 {
        assert(encode_utf8(raw.log.file).len() == 0);
    }
}

/// A file is read if and only if it can be parsed, has exactly the four sections, no key that is
/// unknown, and every key that is needed, each with a value of its kind and no number below zero.
#[verifier::rlimit(40)]
pub proof fn complete_file_is_read(text: Seq<char>, path: Seq<char>)
    ensures
        ({
            let read = toml_of(text);
            let t = read.table;
            let d = t["daemon"@];
            let l = t["log"@];
            let r = t["rule"@];
            let f = t["filters"@];
            text_outcome(text, path) is Read <==> {
                &&& !(read.end matches Some(TomlEnd::Error(_)))
                &&& all_listed(t, seq!["daemon"@, "log"@, "rule"@, "filters"@])
                &&& t.contains_key("daemon"@) && t.contains_key("log"@) && t.contains_key("rule"@)
                    && t.contains_key("filters"@)
                &&& all_listed(
                    d,
                    seq!["ipv6"@, "debounce_ms"@, "debounce_max_ms"@, "batch_max"@],
                )
                &&& all_listed(l, seq!["level"@, "file"@])
                &&& all_listed(r, seq!["pref"@, "table_id"@])
                &&& all_listed(f, seq!["ignore_addr_flags"@, "ignore_ips"@, "ignore_cidrs"@])
                &&& d.contains_key("ipv6"@) && d["ipv6"@] is Bool
                &&& d.contains_key("debounce_ms"@) && is_count(d["debounce_ms"@])
                &&& d.contains_key("debounce_max_ms"@) && is_count(d["debounce_max_ms"@])
                &&& d.contains_key("batch_max"@) && is_count(d["batch_max"@])
                &&& l.contains_key("level"@) && l["level"@] is Str
                &&& l.contains_key("file"@) && l["file"@] is Str
                &&& r.contains_key("pref"@) && is_count(r["pref"@])
                &&& r.contains_key("table_id"@) && is_count(r["table_id"@])
                &&& f.contains_key("ignore_addr_flags"@) ==> f["ignore_addr_flags"@] is Array
                &&& f.contains_key("ignore_ips"@) ==> f["ignore_ips"@] is Array
                &&& f.contains_key("ignore_cidrs"@) ==> f["ignore_cidrs"@] is Array
            }
        }),
{
}

/// Whether a value is a number that is not below zero.
pub open spec fn is_count(v: Toml) -> bool {
    v matches Toml::Int(n) && n >= 0
}

/// What was read is accepted if and only if every number is positive, the level is one of the four
/// words, the log has a file, and the lists are accepted.
pub proof fn options_are_accepted_if_valid(
    text: Seq<char>,
    path: Seq<char>,
    work_dir: Seq<u8>,
    config_path: Seq<u8>,
    ips: Seq<Option<IpAddr>>,
    cidr_addrs: Seq<Option<IpAddr>>,
)
    requires
        text_outcome(text, path) is Read,
    ensures
        ({
            let raw = text_outcome(text, path)->Read_0;
            let level = raw.log.level;
            checked(raw, work_dir, config_path, ips, cidr_addrs) is Ok <==> {
                &&& raw.daemon.debounce_ms > 0
                &&& raw.daemon.debounce_max_ms > 0
                &&& raw.daemon.batch_max > 0
                &&& raw.rule.pref > 0
                &&& raw.rule.table_id > 0
                &&& level == "error"@ || level == "warn"@ || level == "info"@ || level == "debug"@
                &&& encode_utf8(raw.log.file).len() > 0
                &&& flags_read(raw.filters.ignore_addr_flags) is Ok
                &&& ips_read(raw.filters.ignore_ips, ips) is Ok
                &&& cidrs_read(raw.filters.ignore_cidrs, cidr_addrs) is Ok
            }
        }),
        level_of("error"@) == Some(Level::Error),
{
}

// ---------------------------------------------------------------------------
// Lists
// ---------------------------------------------------------------------------

/// The words for flags stand for the kernel's bits.
pub proof fn flag_words_stand_for_bits()
    ensures
        flag_bit("temporary"@) == Some(0x01u32),
        flag_bit("optimistic"@) == Some(0x04u32),
        flag_bit("dadfailed"@) == Some(0x08u32),
        flag_bit("deprecated"@) == Some(0x20u32),
        flag_bit("tentative"@) == Some(0x40u32),
        flag_bit("managetempaddr"@) == Some(0x100u32),
        flag_bit("stable_privacy"@) == Some(0x800u32),
{
    reveal_strlit("temporary");
    reveal_strlit("optimistic");
    reveal_strlit("deprecated");
    reveal_strlit("tentative");
    reveal_strlit("dadfailed");
    reveal_strlit("stable_privacy");
    reveal_strlit("managetempaddr");
    assert("temporary"@[2] == 'm' && "tentative"@[2] == 'n');
    assert("temporary"@[0] == 't' && "tentative"@[0] == 't' && "optimistic"@[0] == 'o');
    assert("deprecated"@[1] == 'e' && "dadfailed"@[1] == 'a');
    assert("deprecated"@[0] == 'd' && "dadfailed"@[0] == 'd');
    assert("stable_privacy"@[0] == 's' && "managetempaddr"@[0] == 'm');
}

/// Different words stand for different bits.
proof fn lemma_bits_are_apart(w: Seq<char>, v: Seq<char>, b: u32, c: u32)
    requires
        flag_bit(w) == Some(b),
        flag_bit(v) == Some(c),
        w != v,
    ensures
        b & c == 0,
        c != 0,
{
    assert(b & c == 0) by (bit_vector)
        requires
            b == 0x01 || b == 0x04 || b == 0x08 || b == 0x20 || b == 0x40 || b == 0x100 || b
                == 0x800,
            c == 0x01 || c == 0x04 || c == 0x08 || c == 0x20 || c == 0x40 || c == 0x100 || c
                == 0x800,
            b != c,
    ;
}

/// A list of flags is accepted if and only if every word is known and none stands twice; its mask
/// then holds the bit of every word in it, and of no other.
pub proof fn mask_holds_the_listed_flags(words: Seq<Seq<char>>, word: Seq<char>, bit: u32)
    requires
        flag_bit(word) == Some(bit),
    ensures
        flags_read(words) matches Ok(mask) ==> (mask & bit != 0 <==> words.contains(word)),
        flags_read(words) is Ok <==> (forall|i: int|
            0 <= i < words.len() ==> flag_bit(#[trigger] words[i]) is Some && words[i].len() > 0)
            && words.no_duplicates(),
        flags_read(Seq::empty()) == Ok::<u32, Seq<char>>(0),
    decreases words.len(),
{
    if words.len() > 0 {
        let fewer = words.drop_last();
        let last = words.last();
        mask_holds_the_listed_flags(fewer, word, bit);
        assert(words[words.len() - 1] == last);
        assert forall|i: int| 0 <= i < fewer.len() implies fewer[i] == #[trigger] words[i] by {}
        if flags_read(words) is Ok {
            let mask = flags_read(fewer)->Ok_0;
            let c = flag_bit(last)->0;
            assert((mask | c) & bit != 0 <==> mask & bit != 0 || c & bit != 0) by (bit_vector);
            assert(words.contains(word) <==> fewer.contains(word) || last == word) by {
                if fewer.contains(word) {
                    let i = fewer.index_of(word);
                    assert(words[i] == word);
                }
                if words.contains(word) && last != word {
                    let i = words.index_of(word);
                    assert(fewer[i] == word);
                }
            }
            if last != word {
                lemma_bits_are_apart(last, word, c, bit);
            } else {
                assert(bit & bit == bit) by (bit_vector);
            }
            assert(words.no_duplicates()) by {
                assert forall|i: int, j: int|
                    0 <= i < words.len() && 0 <= j < words.len() && i != j implies words[i]
                    != words[j] by {
                    if i == words.len() - 1 {
                        assert(fewer.contains(fewer[j]));
                    } else if j == words.len() - 1 {
                        assert(fewer.contains(fewer[i]));
                    }
                }
            }
        }
        let good = (forall|i: int|
            0 <= i < words.len() ==> flag_bit(#[trigger] words[i]) is Some && words[i].len() > 0)
            && words.no_duplicates();
        if good {
            assert(fewer.no_duplicates());
            assert(!fewer.contains(last)) by {
                if fewer.contains(last) {
                    let i = fewer.index_of(last);
                    assert(words[i] == words[words.len() - 1]);
                }
            }
            assert(flag_bit(words[words.len() - 1]) is Some);
        }
    } else {
        let mask = 0u32;
        assert(mask & bit == 0) by (bit_vector)
            requires
                mask == 0,
        ;
    }
}

/// A list of addresses is accepted if and only if no text is empty, each is an address, and no
/// address stands twice; the addresses are then those of the texts, in their order.
pub proof fn listed_addresses_are_read_in_order(
    texts: Seq<Seq<char>>,
    parsed: Seq<Option<IpAddr>>,
)
    requires
        parsed.len() >= texts.len(),
    ensures
        ips_read(texts, parsed) matches Ok(ips) ==> ips.len() == texts.len() && (forall|i: int|
            0 <= i < ips.len() ==> parsed[i] == Some(#[trigger] ips[i])),
        ips_read(texts, parsed) is Ok <==> (forall|i: int|
            0 <= i < texts.len() ==> (#[trigger] texts[i]).len() > 0 && parsed[i] is Some) && (
        forall|i: int, j: int|
            0 <= i < j < texts.len() ==> #[trigger] parsed[i] != #[trigger] parsed[j]),
    decreases texts.len(),
{
    if texts.len() > 0 {
        let fewer = texts.drop_last();
        let n = texts.len() - 1;
        listed_addresses_are_read_in_order(fewer, parsed);
        assert forall|i: int| 0 <= i < fewer.len() implies fewer[i] == #[trigger] texts[i] by {}
        assert(texts[n] == texts.last());
        if ips_read(fewer, parsed) is Ok {
            let ips = ips_read(fewer, parsed)->Ok_0;
            if let Some(ip) = parsed[n] {
                assert(ips.contains(ip) <==> exists|i: int| 0 <= i < n && parsed[i] == Some(ip)) by {
                    if ips.contains(ip) {
                        let i = ips.index_of(ip);
                        assert(parsed[i] == Some(ips[i]));
                    }
                    if exists|i: int| 0 <= i < n && parsed[i] == Some(ip) {
                        let i = choose|i: int| 0 <= i < n && parsed[i] == Some(ip);
                        assert(parsed[i] == Some(ips[i]));
                        assert(ips[i] == ip);
                    }
                }
            }
        }
        if (forall|i: int|
            0 <= i < texts.len() ==> (#[trigger] texts[i]).len() > 0 && parsed[i] is Some) {
            assert forall|i: int| 0 <= i < fewer.len() implies (#[trigger] fewer[i]).len() > 0
                && parsed[i] is Some by {
                assert(texts[i].len() > 0);
            }
        }
    }
}

/// The text of a network is an address, a slash, and a prefix in decimal that is no longer than
/// the address.
pub proof fn network_text_is_address_and_prefix(
    text: Seq<char>,
    parsed: Option<IpAddr>,
    addr: IpAddr,
    prefix: u8,
)
    ensures
        cidr_of(text, parsed) == Some((addr, prefix)) ==> parsed == Some(addr) && find(text, '/')
            < text.len() && unsigned_value(text.skip(find(text, '/') + 1), 10, 255) == Some(
            prefix as nat,
        ) && prefix <= (if addr is V4 {
            32int
        } else {
            128
        }),
        parsed == Some(addr) && find(text, '/') < text.len() && unsigned_value(
            text.skip(find(text, '/') + 1),
            10,
            255,
        ) == Some(prefix as nat) && prefix <= (if addr is V4 {
            32int
        } else {
            128
        }) ==> cidr_of(text, parsed) == Some((addr, prefix)),
{
}

/// A list of networks is accepted if and only if no text is empty, each is a network, and no
/// network stands twice; the networks are then those of the texts, in their order.
pub proof fn listed_networks_are_read_in_order(texts: Seq<Seq<char>>, parsed: Seq<Option<IpAddr>>)
    requires
        parsed.len() >= texts.len(),
    ensures
        cidrs_read(texts, parsed) matches Ok(cidrs) ==> cidrs.len() == texts.len() && (forall|
            i: int,
        |
            0 <= i < cidrs.len() ==> cidr_of(texts[i], parsed[i]) == Some(#[trigger] cidrs[i])),
        cidrs_read(texts, parsed) is Ok <==> (forall|i: int|
            0 <= i < texts.len() ==> (#[trigger] texts[i]).len() > 0 && cidr_of(
                texts[i],
                parsed[i],
            ) is Some) && (forall|i: int, j: int|
            0 <= i < j < texts.len() ==> cidr_of(#[trigger] texts[i], parsed[i]) != cidr_of(
                #[trigger] texts[j],
                parsed[j],
            )),
    decreases texts.len(),
{
    if texts.len() > 0 {
        let fewer = texts.drop_last();
        let n = texts.len() - 1;
        listed_networks_are_read_in_order(fewer, parsed);
        assert forall|i: int| 0 <= i < fewer.len() implies fewer[i] == #[trigger] texts[i] by {}
        assert(texts[n] == texts.last());
        if cidrs_read(fewer, parsed) is Ok {
            let cidrs = cidrs_read(fewer, parsed)->Ok_0;
            if let Some(net) = cidr_of(texts[n], parsed[n]) {
                assert(cidrs.contains(net) <==> exists|i: int|
                    0 <= i < n && cidr_of(#[trigger] texts[i], parsed[i]) == Some(net)) by {
                    if cidrs.contains(net) {
                        let i = cidrs.index_of(net);
                        assert(cidr_of(fewer[i], parsed[i]) == Some(cidrs[i]));
                        assert(fewer[i] == texts[i]);
                    }
                    if exists|i: int|
                        0 <= i < n && cidr_of(#[trigger] texts[i], parsed[i]) == Some(net) {
                        let i = choose|i: int|
                            0 <= i < n && cidr_of(#[trigger] texts[i], parsed[i]) == Some(net);
                        assert(cidr_of(fewer[i], parsed[i]) == Some(cidrs[i]));
                        assert(cidrs[i] == net);
                    }
                }
            }
        }
        if (forall|i: int|
            0 <= i < texts.len() ==> (#[trigger] texts[i]).len() > 0 && cidr_of(
                texts[i],
                parsed[i],
            ) is Some) {
            assert forall|i: int| 0 <= i < fewer.len() implies (#[trigger] fewer[i]).len() > 0
                && cidr_of(fewer[i], parsed[i]) is Some by {
                assert(texts[i].len() > 0);
            }
        }
    }
}

// ---------------------------------------------------------------------------
// Refusals
// ---------------------------------------------------------------------------

/// The address of a network is what stands before its slash, read as an address.
pub proof fn network_address_stands_before_the_slash(addr: Seq<char>, rest: Seq<char>)
    requires
        !addr.contains('/'),
    ensures
        cidr_ip(addr + seq!['/'] + rest) == ip_of_text(addr),
        cidr_ip(addr) is None,
{
    let text = addr + seq!['/'] + rest;
    let k = addr.len() as int;
    assert(text[k] == '/');
    assert forall|i: int| 0 <= i < k implies text[i] != '/' by {
        assert(text[i] == addr[i]);
        assert(addr.contains(addr[i]));
    }
    lemma_find_unique(text, '/', k);
    assert(text.take(k) =~= addr);
    assert forall|i: int| 0 <= i < k implies addr[i] != '/' by {
        assert(addr.contains(addr[i]));
    }
    lemma_find_unique(addr, '/', k);
}

/// A key that is needed and not there is named with its section, and so is one whose value is of
/// another kind or, for a number, below zero.
pub proof fn wrong_keys_are_named(section: Section, key: Seq<char>, name: Seq<char>)
    ensures
        !section.contains_key(key) ==> {
            let missing = "missing required key "@ + name + "."@ + key;
            &&& want_str(section, key, name) == Err::<Seq<char>, Seq<char>>(missing)
            &&& want_u64(section, key, name) == Err::<int, Seq<char>>(missing)
            &&& want_bool(section, key, name) == Err::<bool, Seq<char>>(missing)
            &&& want_array(section, key, name) == Ok::<Seq<Seq<char>>, Seq<char>>(Seq::empty())
        },
        section.contains_key(key) ==> {
            &&& section[key] matches Toml::Str(s) ==> want_str(section, key, name) == Ok::<
                Seq<char>,
                Seq<char>,
            >(s)
            &&& section[key] matches Toml::Bool(b) ==> want_bool(section, key, name) == Ok::<
                bool,
                Seq<char>,
            >(b)
            &&& section[key] matches Toml::Array(items) ==> want_array(section, key, name) == Ok::<
                Seq<Seq<char>>,
                Seq<char>,
            >(items)
            &&& section[key] matches Toml::Int(n) ==> want_u64(section, key, name) == (if n >= 0 {
                Ok::<int, Seq<char>>(n)
            } else {
                Err(name + "."@ + key + " must be "@ + "non-negative"@)
            })
            &&& !(section[key] is Str) ==> want_str(section, key, name) == Err::<
                Seq<char>,
                Seq<char>,
            >(name + "."@ + key + " must be "@ + "a string"@)
            &&& !(section[key] is Int) ==> want_u64(section, key, name) == Err::<int, Seq<char>>(
                name + "."@ + key + " must be "@ + "an integer"@,
            )
            &&& !(section[key] is Bool) ==> want_bool(section, key, name) == Err::<
                bool,
                Seq<char>,
            >(name + "."@ + key + " must be "@ + "a boolean"@)
            &&& !(section[key] is Array) ==> want_array(section, key, name) == Err::<
                Seq<Seq<char>>,
                Seq<char>,
            >(name + "."@ + key + " must be "@ + "an array"@)
        },
{
}

/// A zero is refused under the name of its key, where everything before it is right.
pub proof fn zeros_are_refused_by_name(
    raw: Raw,
    work_dir: Seq<u8>,
    config_path: Seq<u8>,
    ips: Seq<Option<IpAddr>>,
    cidr_addrs: Seq<Option<IpAddr>>,
)
    ensures
        ({
            let r = checked(raw, work_dir, config_path, ips, cidr_addrs);
            let d = raw.daemon;
            &&& d.debounce_ms == 0 ==> r == Err::<Checked, Seq<char>>(
                "daemon.debounce_ms"@ + " must be positive"@,
            )
            &&& d.debounce_ms > 0 && d.debounce_max_ms == 0 ==> r == Err::<Checked, Seq<char>>(
                "daemon.debounce_max_ms"@ + " must be positive"@,
            )
            &&& d.debounce_ms > 0 && d.debounce_max_ms > 0 && d.batch_max == 0 ==> r == Err::<
                Checked,
                Seq<char>,
            >("daemon.batch_max must be positive"@)
            &&& d.debounce_ms > 0 && d.debounce_max_ms > 0 && d.batch_max > 0 && raw.rule.pref == 0
                ==> r == Err::<Checked, Seq<char>>("rule.pref must be positive"@)
            &&& d.debounce_ms > 0 && d.debounce_max_ms > 0 && d.batch_max > 0 && raw.rule.pref > 0
                && raw.rule.table_id == 0 ==> r == Err::<Checked, Seq<char>>(
                "rule.table_id must be positive"@,
            )
        }),
{
}

} // verus!
