//! The configuration: what its file may hold, and what it is read as.
use crate::error::{error_text, AppError, ErrorView};
use crate::fx::{set_insert, set_new, text_entries, text_map_keys, text_map_remove};
use crate::ip_key::{ip_of_text, key_determines_address, key_of, parse_ip, IpAddr, IpKey};
use crate::ip_set::IpSet;
use crate::logger::{level_of, Level};
use crate::netlink::addr::valid_prefix;
use crate::netlink::codec::{
    IFA_F_DADFAILED, IFA_F_DEPRECATED, IFA_F_MANAGETEMPADDR, IFA_F_OPTIMISTIC,
    IFA_F_STABLE_PRIVACY, IFA_F_TEMPORARY, IFA_F_TENTATIVE,
};
use crate::path::{absolute, join_path, joined_path};
use crate::text::{
    chars_of, find, find_char, lossy_text, lossy_utf8, parse_unsigned, str_eq, str_views,
    string_views, unsigned_value,
};
use crate::toml::{
    parse_toml, section_view, table_view, toml_of, Toml, TomlEnd, TomlSection, TomlTable, TomlValue,
};
use rustc_hash::FxHashSet;
use vstd::prelude::*;
use vstd::slice::slice_subrange;
use vstd::utf8::encode_utf8;

verus! {

/// What the configuration file says. Paths are byte strings.
pub struct Options {
    pub work_dir: Vec<u8>,
    pub config_path: Vec<u8>,
    pub log_level: Level,
    pub ipv6: bool,
    pub debounce_ms: u64,
    pub debounce_max_ms: u64,
    pub batch_max: usize,
    pub log_file: Vec<u8>,
    pub pref: u32,
    pub table_id: u32,
    pub ignore_addr_flag_mask: u32,
    pub ignore_ips: Vec<IpAddr>,
    pub ignore_cidrs: Vec<(IpAddr, u8)>,
}

impl Options {
    /// What holds of every configuration that was accepted.
    pub open spec fn wf(&self) -> bool {
        &&& self.debounce_ms > 0
        &&& self.debounce_max_ms >= self.debounce_ms
        &&& self.batch_max > 0
        &&& self.pref != 0
        &&& self.table_id != 0
        &&& valid_networks(self.ignore_cidrs@)
    }
}

/// Whether no network has a longer prefix than its family allows.
pub open spec fn valid_networks(cidrs: Seq<(IpAddr, u8)>) -> bool {
    forall|i: int| 0 <= i < cidrs.len() ==> valid_prefix(#[trigger] cidrs[i].0, cidrs[i].1)
}

// ---------------------------------------------------------------------------
// Keys of a section
// ---------------------------------------------------------------------------

/// What a section binds its keys to.
pub type Section = Map<Seq<char>, Toml>;

/// What is said of a key that is not there.
pub open spec fn missing_key(section: Seq<char>, key: Seq<char>) -> Seq<char> {
    "missing required key "@ + section + "."@ + key
}

/// What is said of a key with a value of the wrong kind.
pub open spec fn wrong_kind(section: Seq<char>, key: Seq<char>, kind: Seq<char>) -> Seq<char> {
    section + "."@ + key + " must be "@ + kind
}

/// An error about a key that is not there.
fn key_is_missing(section: &str, key: &str) -> (r: AppError)
    ensures
        r@ == ErrorView::Config(missing_key(section@, key@)),
{
    let mut s = String::new();
    s.append("missing required key ");
    s.append(section);
    s.append(".");
    s.append(key);
    assert(s@ =~= missing_key(section@, key@));
    AppError::Config(s)
}

/// An error about a key with a value of the wrong kind.
fn kind_is_wrong(section: &str, key: &str, kind: &str) -> (r: AppError)
    ensures
        r@ == ErrorView::Config(wrong_kind(section@, key@, kind@)),
{
    let mut s = String::new();
    s.append(section);
    s.append(".");
    s.append(key);
    s.append(" must be ");
    s.append(kind);
    assert(s@ =~= wrong_kind(section@, key@, kind@));
    AppError::Config(s)
}

/// The text that a key has to be bound to, or what is said where it is not.
pub open spec fn want_str(section: Section, key: Seq<char>, name: Seq<char>) -> Result<
    Seq<char>,
    Seq<char>,
> {
    if !section.contains_key(key) {
        Err(missing_key(name, key))
    } else {
        match section[key] {
            Toml::Str(s) => Ok(s),
            _ => Err(wrong_kind(name, key, "a string"@)),
        }
    }
}

/// The number that a key has to be bound to, or what is said where it is not.
pub open spec fn want_u64(section: Section, key: Seq<char>, name: Seq<char>) -> Result<
    int,
    Seq<char>,
> {
    if !section.contains_key(key) {
        Err(missing_key(name, key))
    } else {
        match section[key] {
            Toml::Int(n) => if n >= 0 {
                Ok(n)
            } else {
                Err(wrong_kind(name, key, "non-negative"@))
            },
            _ => Err(wrong_kind(name, key, "an integer"@)),
        }
    }
}

/// The truth value that a key has to be bound to, or what is said where it is not.
pub open spec fn want_bool(section: Section, key: Seq<char>, name: Seq<char>) -> Result<
    bool,
    Seq<char>,
> {
    if !section.contains_key(key) {
        Err(missing_key(name, key))
    } else {
        match section[key] {
            Toml::Bool(b) => Ok(b),
            _ => Err(wrong_kind(name, key, "a boolean"@)),
        }
    }
}

/// The list that a key is bound to, empty where the key is not there.
pub open spec fn want_array(section: Section, key: Seq<char>, name: Seq<char>) -> Result<
    Seq<Seq<char>>,
    Seq<char>,
> {
    if !section.contains_key(key) {
        Ok(Seq::empty())
    } else {
        match section[key] {
            Toml::Array(items) => Ok(items),
            _ => Err(wrong_kind(name, key, "an array"@)),
        }
    }
}

/// Takes a key out of a section.
fn take_value(section: &mut TomlSection, key: &str) -> (r: Option<TomlValue>)
    ensures
        section_view(*final(section)) == section_view(*old(section)).remove(key@),
        match r {
            Some(v) => section_view(*old(section)).contains_key(key@) && section_view(
                *old(section),
            )[key@] == v@,
            None => !section_view(*old(section)).contains_key(key@),
        },
{
    let r = text_map_remove(section, key);
    assert(section_view(*section) =~= section_view(*old(section)).remove(key@));
    r
}

/// Takes a text out of a section.
pub fn take_str(section: &mut TomlSection, key: &str, section_name: &str) -> (r: Result<
    String,
    AppError,
>)
    ensures
        section_view(*final(section)) == section_view(*old(section)).remove(key@),
        match r {
            Ok(s) => want_str(section_view(*old(section)), key@, section_name@) == Ok::<
                Seq<char>,
                Seq<char>,
            >(s@),
            Err(e) => (want_str(section_view(*old(section)), key@, section_name@) matches Err(m)
                && e@ == ErrorView::Config(m)),
        },
{
    match take_value(section, key) {
        Some(TomlValue::Str(s)) => Ok(s),
        Some(_) => Err(kind_is_wrong(section_name, key, "a string")),
        None => Err(key_is_missing(section_name, key)),
    }
}

/// Takes a number out of a section.
pub fn take_u64(section: &mut TomlSection, key: &str, section_name: &str) -> (r: Result<
    u64,
    AppError,
>)
    ensures
        section_view(*final(section)) == section_view(*old(section)).remove(key@),
        match r {
            Ok(n) => want_u64(section_view(*old(section)), key@, section_name@) == Ok::<
                int,
                Seq<char>,
            >(n as int),
            Err(e) => (want_u64(section_view(*old(section)), key@, section_name@) matches Err(m)
                && e@ == ErrorView::Config(m)),
        },
{
    match take_value(section, key) {
        Some(TomlValue::Int(n)) => if n >= 0 {
            Ok(n as u64)
        } else {
            Err(kind_is_wrong(section_name, key, "non-negative"))
        },
        Some(_) => Err(kind_is_wrong(section_name, key, "an integer")),
        None => Err(key_is_missing(section_name, key)),
    }
}

/// Takes a truth value out of a section.
pub fn take_bool(section: &mut TomlSection, key: &str, section_name: &str) -> (r: Result<
    bool,
    AppError,
>)
    ensures
        section_view(*final(section)) == section_view(*old(section)).remove(key@),
        match r {
            Ok(b) => want_bool(section_view(*old(section)), key@, section_name@) == Ok::<
                bool,
                Seq<char>,
            >(b),
            Err(e) => (want_bool(section_view(*old(section)), key@, section_name@) matches Err(m)
                && e@ == ErrorView::Config(m)),
        },
{
    match take_value(section, key) {
        Some(TomlValue::Bool(b)) => Ok(b),
        Some(_) => Err(kind_is_wrong(section_name, key, "a boolean")),
        None => Err(key_is_missing(section_name, key)),
    }
}

/// Takes a list out of a section, an empty one where the key is not there.
pub fn take_array_or_default(section: &mut TomlSection, key: &str, section_name: &str) -> (r:
    Result<Vec<String>, AppError>)
    ensures
        section_view(*final(section)) == section_view(*old(section)).remove(key@),
        match r {
            Ok(items) => want_array(section_view(*old(section)), key@, section_name@) == Ok::<
                Seq<Seq<char>>,
                Seq<char>,
            >(string_views(items@)),
            Err(e) => (want_array(section_view(*old(section)), key@, section_name@) matches Err(m)
                && e@ == ErrorView::Config(m)),
        },
{
    match take_value(section, key) {
        Some(TomlValue::Array(items)) => Ok(items),
        Some(_) => Err(kind_is_wrong(section_name, key, "an array")),
        None => {
            let items: Vec<String> = Vec::new();
            assert(string_views(items@) =~= Seq::<Seq<char>>::empty());
            Ok(items)
        },
    }
}

// ---------------------------------------------------------------------------
// Unknown keys
// ---------------------------------------------------------------------------

/// Whether all keys are on a list.
pub open spec fn all_listed<V>(entries: Map<Seq<char>, V>, list: Seq<Seq<char>>) -> bool {
    forall|k: Seq<char>| #[trigger] entries.contains_key(k) ==> list.contains(k)
}

/// What is said of a key that a section may not have.
pub open spec fn unknown_field(key: Seq<char>, section: Seq<char>) -> Seq<char> {
    "unknown field `"@ + key + "` in ["@ + section + "]"@
}

/// An error about a key that a section may not have.
fn field_is_unknown(key: &str, section: &str) -> (r: AppError)
    ensures
        r@ == ErrorView::Config(unknown_field(key@, section@)),
{
    let mut s = String::new();
    s.append("unknown field `");
    s.append(key);
    s.append("` in [");
    s.append(section);
    s.append("]");
    assert(s@ =~= unknown_field(key@, section@));
    AppError::Config(s)
}

/// Whether an error names some key that is not on a list. Which one is named where there are
/// several rests on the order of the table.
pub open spec fn names_unlisted(
    section: Section,
    list: Seq<Seq<char>>,
    name: Seq<char>,
    e: ErrorView,
) -> bool {
    exists|k: Seq<char>|
        #[trigger] section.contains_key(k) && !list.contains(k) && e == ErrorView::Config(
            unknown_field(k, name),
        )
}

/// Whether a text is on a list.
fn is_listed(text: &str, list: &[&str]) -> (r: bool)
    ensures
        r == str_views(list@).contains(text@),
{
    for i in 0..list.len()
        invariant
            forall|j: int| 0 <= j < i ==> (#[trigger] list@[j])@ != text@,
    {
        if str_eq(text, list[i]) {
            assert(str_views(list@)[i as int] == text@);
            return true;
        }
    }
    assert forall|j: int| 0 <= j < str_views(list@).len() implies str_views(list@)[j] != text@ by {
        assert(list@[j]@ != text@);
    }
    false
}

/// The first of some keys that is not on a list.
pub fn first_unlisted(keys: &[&String], list: &[&str]) -> (r: Option<usize>)
    ensures
        match r {
            Some(i) => i < keys@.len() && !str_views(list@).contains(keys@[i as int]@) && forall|
                j: int,
            |
                0 <= j < i ==> str_views(list@).contains((#[trigger] keys@[j])@),
            None => forall|j: int|
                0 <= j < keys@.len() ==> str_views(list@).contains((#[trigger] keys@[j])@),
        },
{
    for i in 0..keys.len()
        invariant
            forall|j: int| 0 <= j < i ==> str_views(list@).contains((#[trigger] keys@[j])@),
    {
        if !is_listed(keys[i].as_str(), list) {
            return Some(i);
        }
    }
    None
}

/// Refuses a section with a key that is not on a list.
pub fn reject_unknown_keys_with_allowlist(
    section: &TomlSection,
    section_name: &str,
    allowlist: &[&str],
) -> (r: Result<(), AppError>)
    ensures
        match r {
            Ok(_) => all_listed(section_view(*section), str_views(allowlist@)),
            Err(e) => names_unlisted(
                section_view(*section),
                str_views(allowlist@),
                section_name@,
                e@,
            ),
        },
{
    let keys = text_map_keys(section);
    match first_unlisted(keys.as_slice(), allowlist) {
        Some(i) => {
            let key = keys[i].as_str();
            assert(section_view(*section).contains_key(key@));
            Err(field_is_unknown(key, section_name))
        },
        None => {
            assert forall|k: Seq<char>| #[trigger] section_view(*section).contains_key(k) implies
                str_views(allowlist@).contains(k) by {
                assert(text_entries(section@).contains_key(k));
                let i = choose|i: int| 0 <= i < keys@.len() && (#[trigger] keys@[i])@ == k;
                assert(str_views(allowlist@).contains(keys@[i]@));
            }
            Ok(())
        },
    }
}

/// Refuses a section that has keys left.
pub fn reject_unknown_keys(section: &TomlSection, section_name: &str) -> (r: Result<(), AppError>)
    ensures
        match r {
            Ok(_) => all_listed(section_view(*section), Seq::empty()),
            Err(e) => names_unlisted(section_view(*section), Seq::empty(), section_name@, e@),
        },
{
    let keys = text_map_keys(section);
    if keys.len() > 0 {
        let key = keys[0].as_str();
        assert(section_view(*section).contains_key(key@));
        return Err(field_is_unknown(key, section_name));
    }
    assert forall|k: Seq<char>| #[trigger] section_view(*section).contains_key(k) implies Seq::<
        Seq<char>,
    >::empty().contains(k) by {
        assert(text_entries(section@).contains_key(k));
    }
    Ok(())
}

// ---------------------------------------------------------------------------
// Sections
// ---------------------------------------------------------------------------

/// What the configuration file says, before it is checked.
pub struct RawConfig {
    pub ipv6: bool,
    pub debounce_ms: u64,
    pub debounce_max_ms: u64,
    pub batch_max: usize,
    pub log_level: String,
    pub log_file: String,
    pub pref: u32,
    pub table_id: u32,
    pub ignore_addr_flags: Vec<String>,
    pub ignore_ips: Vec<String>,
    pub ignore_cidrs: Vec<String>,
}

/// The section `daemon`.
pub struct DaemonSection {
    pub ipv6: bool,
    pub debounce_ms: u64,
    pub debounce_max_ms: u64,
    pub batch_max: usize,
}

/// The section `log`.
pub struct LogSection {
    pub level: String,
    pub file: String,
}

/// The section `log` with its texts as characters.
pub struct LogView {
    pub level: Seq<char>,
    pub file: Seq<char>,
}

impl View for LogSection {
    type V = LogView;

    open spec fn view(&self) -> LogView {
        LogView { level: self.level@, file: self.file@ }
    }
}

/// The section `rule`.
pub struct RuleSection {
    pub pref: u32,
    pub table_id: u32,
}

/// The section `filters`.
pub struct FiltersSection {
    pub ignore_addr_flags: Vec<String>,
    pub ignore_ips: Vec<String>,
    pub ignore_cidrs: Vec<String>,
}

/// The section `filters` with its texts as characters.
pub struct FiltersView {
    pub ignore_addr_flags: Seq<Seq<char>>,
    pub ignore_ips: Seq<Seq<char>>,
    pub ignore_cidrs: Seq<Seq<char>>,
}

impl View for FiltersSection {
    type V = FiltersView;

    open spec fn view(&self) -> FiltersView {
        FiltersView {
            ignore_addr_flags: string_views(self.ignore_addr_flags@),
            ignore_ips: string_views(self.ignore_ips@),
            ignore_cidrs: string_views(self.ignore_cidrs@),
        }
    }
}

/// The keys of the section `daemon`.
pub open spec fn daemon_keys() -> Seq<Seq<char>> {
    seq!["ipv6"@, "debounce_ms"@, "debounce_max_ms"@, "batch_max"@]
}

/// The keys of the section `log`.
pub open spec fn log_keys() -> Seq<Seq<char>> {
    seq!["level"@, "file"@]
}

/// The keys of the section `rule`.
pub open spec fn rule_keys() -> Seq<Seq<char>> {
    seq!["pref"@, "table_id"@]
}

/// The keys of the section `filters`.
pub open spec fn filters_keys() -> Seq<Seq<char>> {
    seq!["ignore_addr_flags"@, "ignore_ips"@, "ignore_cidrs"@]
}

/// What the section `daemon` is read as.
pub open spec fn daemon_read(s: Section) -> Result<DaemonSection, Seq<char>> {
    match want_bool(s, "ipv6"@, "daemon"@) {
        Err(m) => Err(m),
        Ok(ipv6) => match want_u64(s, "debounce_ms"@, "daemon"@) {
            Err(m) => Err(m),
            Ok(debounce) => match want_u64(s, "debounce_max_ms"@, "daemon"@) {
                Err(m) => Err(m),
                Ok(debounce_max) => match want_u64(s, "batch_max"@, "daemon"@) {
                    Err(m) => Err(m),
                    Ok(batch_max) => Ok(
                        DaemonSection {
                            ipv6,
                            debounce_ms: debounce as u64,
                            debounce_max_ms: debounce_max as u64,
                            batch_max: (batch_max as u64) as usize,
                        },
                    ),
                },
            },
        },
    }
}

/// What the section `log` is read as.
pub open spec fn log_read(s: Section) -> Result<LogView, Seq<char>> {
    match want_str(s, "level"@, "log"@) {
        Err(m) => Err(m),
        Ok(level) => match want_str(s, "file"@, "log"@) {
            Err(m) => Err(m),
            Ok(file) => Ok(LogView { level, file }),
        },
    }
}

/// What the section `rule` is read as. Of large numbers the low 32 bits count.
pub open spec fn rule_read(s: Section) -> Result<RuleSection, Seq<char>> {
    match want_u64(s, "pref"@, "rule"@) {
        Err(m) => Err(m),
        Ok(pref) => match want_u64(s, "table_id"@, "rule"@) {
            Err(m) => Err(m),
            Ok(table_id) => Ok(
                RuleSection { pref: (pref as u64) as u32, table_id: (table_id as u64) as u32 },
            ),
        },
    }
}

/// What the section `filters` is read as.
pub open spec fn filters_read(s: Section) -> Result<FiltersView, Seq<char>> {
    match want_array(s, "ignore_addr_flags"@, "filters"@) {
        Err(m) => Err(m),
        Ok(ignore_addr_flags) => match want_array(s, "ignore_ips"@, "filters"@) {
            Err(m) => Err(m),
            Ok(ignore_ips) => match want_array(s, "ignore_cidrs"@, "filters"@) {
                Err(m) => Err(m),
                Ok(ignore_cidrs) => Ok(FiltersView { ignore_addr_flags, ignore_ips, ignore_cidrs }),
            },
        },
    }
}

/// The names of keys differ.
proof fn lemma_keys_differ()
    ensures
        "ipv6"@.len() == 4,
        "debounce_ms"@.len() == 11,
        "debounce_max_ms"@.len() == 15,
        "batch_max"@.len() == 9,
        "level"@.len() == 5,
        "file"@.len() == 4,
        "pref"@.len() == 4,
        "table_id"@.len() == 8,
        "ignore_addr_flags"@.len() == 17,
        "ignore_ips"@.len() == 10,
        "ignore_cidrs"@.len() == 12,
{
    reveal_strlit("ipv6");
    reveal_strlit("debounce_ms");
    reveal_strlit("debounce_max_ms");
    reveal_strlit("batch_max");
    reveal_strlit("level");
    reveal_strlit("file");
    reveal_strlit("pref");
    reveal_strlit("table_id");
    reveal_strlit("ignore_addr_flags");
    reveal_strlit("ignore_ips");
    reveal_strlit("ignore_cidrs");
}

/// What a section is read as: an error about a key that it may not have, or what its keys are
/// bound to.
pub open spec fn section_result<T>(
    section: Section,
    keys: Seq<Seq<char>>,
    name: Seq<char>,
    read: Result<T, Seq<char>>,
    r: Result<T, ErrorView>,
) -> bool {
    if all_listed(section, keys) {
        match read {
            Ok(v) => r == Ok::<T, ErrorView>(v),
            Err(m) => r == Err::<T, ErrorView>(ErrorView::Config(m)),
        }
    } else {
        r matches Err(e) && names_unlisted(section, keys, name, e)
    }
}

/// Reads the section `daemon`.
pub fn read_daemon_section(section: TomlSection) -> (r: Result<DaemonSection, AppError>)
    ensures
        section_result(
            section_view(section),
            daemon_keys(),
            "daemon"@,
            daemon_read(section_view(section)),
            match r {
                Ok(v) => Ok(v),
                Err(e) => Err(e@),
            },
        ),
{
    let mut section = section;
    let ghost all = section_view(section);
    let allowed: [&str; 4] = ["ipv6", "debounce_ms", "debounce_max_ms", "batch_max"];
    assert(str_views(allowed@) =~= daemon_keys());
    proof {
        lemma_keys_differ();
    }
    if let Err(e) = reject_unknown_keys_with_allowlist(&section, "daemon", &allowed) {
        return Err(e);
    }
    let ipv6 = match take_bool(&mut section, "ipv6", "daemon") {
        Ok(v) => v,
        Err(e) => return Err(e),
    };
    let debounce_ms: u64 = match take_u64(&mut section, "debounce_ms", "daemon") {
        Ok(v) => v,
        Err(e) => return Err(e),
    };
    let debounce_max_ms: u64 = match take_u64(&mut section, "debounce_max_ms", "daemon") {
        Ok(v) => v,
        Err(e) => return Err(e),
    };
    let batch_max: u64 = match take_u64(&mut section, "batch_max", "daemon") {
        Ok(v) => v,
        Err(e) => return Err(e),
    };
    if let Err(e) = reject_unknown_keys(&section, "daemon") {
        proof {
            let k = choose|k: Seq<char>| #[trigger] section_view(section).contains_key(k);
            assert(all.contains_key(k));
            assert(daemon_keys().contains(k));
        }
        return Err(e);
    }
    Ok(DaemonSection { ipv6, debounce_ms, debounce_max_ms, batch_max: batch_max as usize })
}

/// Reads the section `log`.
pub fn read_log_section(section: TomlSection) -> (r: Result<LogSection, AppError>)
    ensures
        section_result(
            section_view(section),
            log_keys(),
            "log"@,
            log_read(section_view(section)),
            match r {
                Ok(v) => Ok(v@),
                Err(e) => Err(e@),
            },
        ),
{
    let mut section = section;
    let ghost all = section_view(section);
    let allowed: [&str; 2] = ["level", "file"];
    assert(str_views(allowed@) =~= log_keys());
    proof {
        lemma_keys_differ();
    }
    if let Err(e) = reject_unknown_keys_with_allowlist(&section, "log", &allowed) {
        return Err(e);
    }
    let level = match take_str(&mut section, "level", "log") {
        Ok(v) => v,
        Err(e) => return Err(e),
    };
    let file = match take_str(&mut section, "file", "log") {
        Ok(v) => v,
        Err(e) => return Err(e),
    };
    if let Err(e) = reject_unknown_keys(&section, "log") {
        proof {
            let k = choose|k: Seq<char>| #[trigger] section_view(section).contains_key(k);
            assert(all.contains_key(k));
            assert(log_keys().contains(k));
        }
        return Err(e);
    }
    Ok(LogSection { level, file })
}

/// Reads the section `rule`.
pub fn read_rule_section(section: TomlSection) -> (r: Result<RuleSection, AppError>)
    ensures
        section_result(
            section_view(section),
            rule_keys(),
            "rule"@,
            rule_read(section_view(section)),
            match r {
                Ok(v) => Ok(v),
                Err(e) => Err(e@),
            },
        ),
{
    let mut section = section;
    let ghost all = section_view(section);
    let allowed: [&str; 2] = ["pref", "table_id"];
    assert(str_views(allowed@) =~= rule_keys());
    proof {
        lemma_keys_differ();
    }
    if let Err(e) = reject_unknown_keys_with_allowlist(&section, "rule", &allowed) {
        return Err(e);
    }
    let pref: u64 = match take_u64(&mut section, "pref", "rule") {
        Ok(v) => v,
        Err(e) => return Err(e),
    };
    let table_id: u64 = match take_u64(&mut section, "table_id", "rule") {
        Ok(v) => v,
        Err(e) => return Err(e),
    };
    if let Err(e) = reject_unknown_keys(&section, "rule") {
        proof {
            let k = choose|k: Seq<char>| #[trigger] section_view(section).contains_key(k);
            assert(all.contains_key(k));
            assert(rule_keys().contains(k));
        }
        return Err(e);
    }
    Ok(RuleSection { pref: pref as u32, table_id: table_id as u32 })
}

/// Reads the section `filters`.
pub fn read_filters_section(section: TomlSection) -> (r: Result<FiltersSection, AppError>)
    ensures
        section_result(
            section_view(section),
            filters_keys(),
            "filters"@,
            filters_read(section_view(section)),
            match r {
                Ok(v) => Ok(v@),
                Err(e) => Err(e@),
            },
        ),
{
    let mut section = section;
    let ghost all = section_view(section);
    let allowed: [&str; 3] = ["ignore_addr_flags", "ignore_ips", "ignore_cidrs"];
    assert(str_views(allowed@) =~= filters_keys());
    proof {
        lemma_keys_differ();
    }
    if let Err(e) = reject_unknown_keys_with_allowlist(&section, "filters", &allowed) {
        return Err(e);
    }
    let ignore_addr_flags = match take_array_or_default(
        &mut section,
        "ignore_addr_flags",
        "filters",
    ) {
        Ok(v) => v,
        Err(e) => return Err(e),
    };
    let ignore_ips = match take_array_or_default(&mut section, "ignore_ips", "filters") {
        Ok(v) => v,
        Err(e) => return Err(e),
    };
    let ignore_cidrs = match take_array_or_default(&mut section, "ignore_cidrs", "filters") {
        Ok(v) => v,
        Err(e) => return Err(e),
    };
    if let Err(e) = reject_unknown_keys(&section, "filters") {
        proof {
            let k = choose|k: Seq<char>| #[trigger] section_view(section).contains_key(k);
            assert(all.contains_key(k));
            assert(filters_keys().contains(k));
        }
        return Err(e);
    }
    Ok(FiltersSection { ignore_addr_flags, ignore_ips, ignore_cidrs })
}

// ---------------------------------------------------------------------------
// The file
// ---------------------------------------------------------------------------

/// What the configuration file says, with texts as characters.
pub struct Raw {
    pub daemon: DaemonSection,
    pub log: LogView,
    pub rule: RuleSection,
    pub filters: FiltersView,
}

impl View for RawConfig {
    type V = Raw;

    open spec fn view(&self) -> Raw {
        Raw {
            daemon: DaemonSection {
                ipv6: self.ipv6,
                debounce_ms: self.debounce_ms,
                debounce_max_ms: self.debounce_max_ms,
                batch_max: self.batch_max,
            },
            log: LogView { level: self.log_level@, file: self.log_file@ },
            rule: RuleSection { pref: self.pref, table_id: self.table_id },
            filters: FiltersView {
                ignore_addr_flags: string_views(self.ignore_addr_flags@),
                ignore_ips: string_views(self.ignore_ips@),
                ignore_cidrs: string_views(self.ignore_cidrs@),
            },
        }
    }
}

/// What a configuration file is read as.
pub enum RawOutcome {
    Read(Raw),
    Error(Seq<char>),
    /// There is a section that may not be there. Which one is named where there are several
    /// rests on the order of the table.
    UnknownSection,
    /// A section has a key that it may not have. Which one is named where there are several rests
    /// on the order of the table.
    UnknownKey(Seq<char>, Seq<Seq<char>>),
}

/// The sections that a configuration file has.
pub open spec fn known_sections() -> Seq<Seq<char>> {
    seq!["daemon"@, "log"@, "rule"@, "filters"@]
}

/// What is said of a file at a path that cannot be read as a configuration.
pub open spec fn parse_failed(path: Seq<char>, what: Seq<char>) -> Seq<char> {
    "parse config failed ("@ + path + "): "@ + what
}

/// What is said of a section that is not there.
pub open spec fn missing_section(path: Seq<char>, name: Seq<char>) -> Seq<char> {
    parse_failed(path, "missing ["@ + name + "] section"@)
}

/// What is said of a section that may not be there.
pub open spec fn unknown_section(path: Seq<char>, name: Seq<char>) -> Seq<char> {
    parse_failed(path, "unknown section ["@ + name + "]"@)
}

/// The sections of a file.
pub type Table = Map<Seq<char>, Map<Seq<char>, Toml>>;

/// What the sections after `daemon`, `log` and `rule` are read as.
pub open spec fn filters_outcome(
    table: Table,
    path: Seq<char>,
    daemon: DaemonSection,
    log: LogView,
    rule: RuleSection,
) -> RawOutcome {
    let name = "filters"@;
    if !table.contains_key(name) {
        RawOutcome::Error(missing_section(path, name))
    } else if !all_listed(table[name], filters_keys()) {
        RawOutcome::UnknownKey(name, filters_keys())
    } else {
        match filters_read(table[name]) {
            Err(m) => RawOutcome::Error(m),
            Ok(filters) => RawOutcome::Read(Raw { daemon, log, rule, filters }),
        }
    }
}

/// What the sections after `daemon` and `log` are read as.
pub open spec fn rule_outcome(
    table: Table,
    path: Seq<char>,
    daemon: DaemonSection,
    log: LogView,
) -> RawOutcome {
    let name = "rule"@;
    if !table.contains_key(name) {
        RawOutcome::Error(missing_section(path, name))
    } else if !all_listed(table[name], rule_keys()) {
        RawOutcome::UnknownKey(name, rule_keys())
    } else {
        match rule_read(table[name]) {
            Err(m) => RawOutcome::Error(m),
            Ok(rule) => filters_outcome(table, path, daemon, log, rule),
        }
    }
}

/// What the sections after `daemon` are read as.
pub open spec fn log_outcome(table: Table, path: Seq<char>, daemon: DaemonSection) -> RawOutcome {
    let name = "log"@;
    if !table.contains_key(name) {
        RawOutcome::Error(missing_section(path, name))
    } else if !all_listed(table[name], log_keys()) {
        RawOutcome::UnknownKey(name, log_keys())
    } else {
        match log_read(table[name]) {
            Err(m) => RawOutcome::Error(m),
            Ok(log) => rule_outcome(table, path, daemon, log),
        }
    }
}

/// What sections are read as.
pub open spec fn table_outcome(table: Table, path: Seq<char>) -> RawOutcome {
    let name = "daemon"@;
    if !all_listed(table, known_sections()) {
        RawOutcome::UnknownSection
    } else if !table.contains_key(name) {
        RawOutcome::Error(missing_section(path, name))
    } else if !all_listed(table[name], daemon_keys()) {
        RawOutcome::UnknownKey(name, daemon_keys())
    } else {
        match daemon_read(table[name]) {
            Err(m) => RawOutcome::Error(m),
            Ok(daemon) => log_outcome(table, path, daemon),
        }
    }
}

/// What a file at a path is read as.
pub open spec fn text_outcome(text: Seq<char>, path: Seq<char>) -> RawOutcome {
    let read = toml_of(text);
    match read.end {
        Some(TomlEnd::Error(m)) => RawOutcome::Error(
            parse_failed(path, error_text(ErrorView::Config(m))),
        ),
        _ => table_outcome(read.table, path),
    }
}

/// Whether a result is the one that an outcome calls for.
pub open spec fn raw_result(
    table: Table,
    path: Seq<char>,
    outcome: RawOutcome,
    r: Result<Raw, ErrorView>,
) -> bool {
    match outcome {
        RawOutcome::Read(raw) => r == Ok::<Raw, ErrorView>(raw),
        RawOutcome::Error(m) => r == Err::<Raw, ErrorView>(ErrorView::Config(m)),
        RawOutcome::UnknownSection => exists|k: Seq<char>|
            #[trigger] table.contains_key(k) && !known_sections().contains(k) && r == Err::<
                Raw,
                ErrorView,
            >(ErrorView::Config(unknown_section(path, k))),
        RawOutcome::UnknownKey(name, keys) => r matches Err(e) && names_unlisted(
            table[name],
            keys,
            name,
            e,
        ),
    }
}

/// An error about a file that cannot be read as a configuration.
fn config_is_bad(path: &str, before: &str, what: &str, after: &str) -> (r: AppError)
    ensures
        r@ == ErrorView::Config(parse_failed(path@, before@ + what@ + after@)),
{
    let mut s = String::new();
    s.append("parse config failed (");
    s.append(path);
    s.append("): ");
    s.append(before);
    s.append(what);
    s.append(after);
    assert(s@ =~= parse_failed(path@, before@ + what@ + after@));
    AppError::Config(s)
}

/// Takes a section out of a file.
fn take_section(table: &mut TomlTable, name: &str, path: &str) -> (r: Result<TomlSection, AppError>)
    ensures
        table_view(*final(table)) == table_view(*old(table)).remove(name@),
        match r {
            Ok(section) => table_view(*old(table)).contains_key(name@) && section_view(section)
                == table_view(*old(table))[name@],
            Err(e) => !table_view(*old(table)).contains_key(name@) && e@ == ErrorView::Config(
                missing_section(path@, name@),
            ),
        },
{
    let r = text_map_remove(table, name);
    assert(table_view(*table) =~= table_view(*old(table)).remove(name@));
    match r {
        Some(section) => Ok(section),
        None => Err(config_is_bad(path, "missing [", name, "] section")),
    }
}

/// Refuses a file with a section that may not be there.
fn reject_unknown_sections(table: &TomlTable, path: &str) -> (r: Result<(), AppError>)
    ensures
        match r {
            Ok(_) => all_listed(table_view(*table), known_sections()),
            Err(e) => exists|k: Seq<char>|
                #[trigger] table_view(*table).contains_key(k) && !known_sections().contains(k)
                    && e@ == ErrorView::Config(unknown_section(path@, k)),
        },
{
    let known: [&str; 4] = ["daemon", "log", "rule", "filters"];
    assert(str_views(known@) =~= known_sections());
    let keys = text_map_keys(table);
    match first_unlisted(keys.as_slice(), &known) {
        Some(i) => {
            let name = keys[i].as_str();
            assert(table_view(*table).contains_key(name@));
            Err(config_is_bad(path, "unknown section [", name, "]"))
        },
        None => {
            assert forall|k: Seq<char>| #[trigger] table_view(*table).contains_key(k) implies
                known_sections().contains(k) by {
                assert(text_entries(table@).contains_key(k));
                let i = choose|i: int| 0 <= i < keys@.len() && (#[trigger] keys@[i])@ == k;
                assert(known_sections().contains(keys@[i]@));
            }
            Ok(())
        },
    }
}

/// The names of sections differ.
proof fn lemma_sections_differ()
    ensures
        "daemon"@.len() == 6,
        "log"@.len() == 3,
        "rule"@.len() == 4,
        "filters"@.len() == 7,
{
    reveal_strlit("daemon");
    reveal_strlit("log");
    reveal_strlit("rule");
    reveal_strlit("filters");
}

/// The result of a reading over views.
pub open spec fn raw_view(r: Result<RawConfig, AppError>) -> Result<Raw, ErrorView> {
    match r {
        Ok(raw) => Ok(raw@),
        Err(e) => Err(e@),
    }
}

/// Reads the sections of a file. `path` is how the path of the file is shown.
pub fn read_sections(table: TomlTable, path: &str) -> (r: Result<RawConfig, AppError>)
    ensures
        raw_result(
            table_view(table),
            path@,
            table_outcome(table_view(table), path@),
            raw_view(r),
        ),
{
    let mut table = table;
    proof {
        lemma_sections_differ();
    }
    if let Err(e) = reject_unknown_sections(&table, path) {
        return Err(e);
    }
    let section = match take_section(&mut table, "daemon", path) {
        Ok(section) => section,
        Err(e) => return Err(e),
    };
    let daemon = match read_daemon_section(section) {
        Ok(v) => v,
        Err(e) => return Err(e),
    };
    let section = match take_section(&mut table, "log", path) {
        Ok(section) => section,
        Err(e) => return Err(e),
    };
    let log = match read_log_section(section) {
        Ok(v) => v,
        Err(e) => return Err(e),
    };
    let section = match take_section(&mut table, "rule", path) {
        Ok(section) => section,
        Err(e) => return Err(e),
    };
    let rule = match read_rule_section(section) {
        Ok(v) => v,
        Err(e) => return Err(e),
    };
    let section = match take_section(&mut table, "filters", path) {
        Ok(section) => section,
        Err(e) => return Err(e),
    };
    let filters = match read_filters_section(section) {
        Ok(v) => v,
        Err(e) => return Err(e),
    };
    Ok(
        RawConfig {
            ipv6: daemon.ipv6,
            debounce_ms: daemon.debounce_ms,
            debounce_max_ms: daemon.debounce_max_ms,
            batch_max: daemon.batch_max,
            log_level: log.level,
            log_file: log.file,
            pref: rule.pref,
            table_id: rule.table_id,
            ignore_addr_flags: filters.ignore_addr_flags,
            ignore_ips: filters.ignore_ips,
            ignore_cidrs: filters.ignore_cidrs,
        },
    )
}

impl RawConfig {
    /// Reads a configuration file. `config_path` is the path of the file.
    pub fn read(text: &str, config_path: &[u8]) -> (r: Result<RawConfig, AppError>)
        requires
            toml_of(text@).end != Some(TomlEnd::LoneQuote),
        ensures
            raw_result(
                toml_of(text@).table,
                lossy_utf8(config_path@),
                text_outcome(text@, lossy_utf8(config_path@)),
                raw_view(r),
            ),
    {
        let path = lossy_text(config_path);
        match parse_toml(text) {
            Ok(table) => read_sections(table, path.as_str()),
            Err(e) => {
                let what = e.to_text();
                proof {
                    reveal_strlit("");
                    assert(""@ + what@ + ""@ =~= what@);
                }
                Err(config_is_bad(path.as_str(), "", what.as_str(), ""))
            },
        }
    }
}

// ---------------------------------------------------------------------------
// Paths and numbers
// ---------------------------------------------------------------------------

/// What is said of something that may not be empty.
pub open spec fn not_empty(context: Seq<char>) -> Seq<char> {
    context + " must not be empty"@
}

/// What is said of something that has to be positive.
pub open spec fn not_positive(context: Seq<char>) -> Seq<char> {
    context + " must be positive"@
}

/// Refuses an empty working directory.
pub fn sanitize_work_dir(path: &[u8]) -> (r: Result<Vec<u8>, AppError>)
    ensures
        match r {
            Ok(dir) => path@.len() > 0 && dir@ == path@,
            Err(e) => path@.len() == 0 && e@ == ErrorView::Config("work_dir must not be empty"@),
        },
{
    if path.len() == 0 {
        return Err(AppError::config("work_dir must not be empty"));
    }
    let mut dir: Vec<u8> = Vec::new();
    dir.extend_from_slice(path);
    assert(dir@ =~= path@);
    Ok(dir)
}

/// A path seen from a directory. `context` says what the path is for.
pub fn resolve_relative_path(path: &[u8], base: &[u8], context: &str) -> (r: Result<
    Vec<u8>,
    AppError,
>)
    ensures
        match r {
            Ok(p) => path@.len() > 0 && p@ == joined_path(base@, path@),
            Err(e) => path@.len() == 0 && e@ == ErrorView::Config(not_empty(context@)),
        },
{
    if path.len() == 0 {
        let mut s = context.to_owned();
        s.append(" must not be empty");
        return Err(AppError::Config(s));
    }
    Ok(join_path(base, path))
}

/// Refuses zero.
pub fn validate_positive(value: u64, key: &str) -> (r: Result<(), AppError>)
    ensures
        match r {
            Ok(_) => value > 0,
            Err(e) => value == 0 && e@ == ErrorView::Config(not_positive(key@)),
        },
{
    if value == 0 {
        let mut s = key.to_owned();
        s.append(" must be positive");
        return Err(AppError::Config(s));
    }
    Ok(())
}

/// Where the configuration file is: the working directory, and the path of the file.
pub fn config_file(config_path: &[u8], work_dir: &[u8]) -> (r: Result<(Vec<u8>, Vec<u8>), AppError>)
    ensures
        match r {
            Ok((dir, path)) => work_dir@.len() > 0 && config_path@.len() > 0 && dir@ == work_dir@
                && path@ == joined_path(work_dir@, config_path@),
            Err(e) => e@ == ErrorView::Config(
                if work_dir@.len() == 0 {
                    "work_dir must not be empty"@
                } else {
                    not_empty("config path"@)
                },
            ) && (work_dir@.len() == 0 || config_path@.len() == 0),
        },
{
    let dir = match sanitize_work_dir(work_dir) {
        Ok(dir) => dir,
        Err(e) => return Err(e),
    };
    match resolve_relative_path(config_path, dir.as_slice(), "config path") {
        Ok(path) => Ok((dir, path)),
        Err(e) => Err(e),
    }
}

/// The error where the file cannot be read. `err` is how the system's error is shown.
pub fn read_failed(config_path: &[u8], err: &str) -> (r: AppError)
    ensures
        r@ == ErrorView::Config(
            "read config failed ("@ + lossy_utf8(config_path@) + "): "@ + err@,
        ),
{
    let path = lossy_text(config_path);
    let mut s = String::new();
    s.append("read config failed (");
    s.append(path.as_str());
    s.append("): ");
    s.append(err);
    assert(s@ =~= "read config failed ("@ + lossy_utf8(config_path@) + "): "@ + err@);
    AppError::Config(s)
}

// ---------------------------------------------------------------------------
// Filters
// ---------------------------------------------------------------------------

/// The address flag that a word stands for.
pub open spec fn flag_bit(word: Seq<char>) -> Option<u32> {
    if word == "temporary"@ {
        Some(IFA_F_TEMPORARY)
    } else if word == "optimistic"@ {
        Some(IFA_F_OPTIMISTIC)
    } else if word == "deprecated"@ {
        Some(IFA_F_DEPRECATED)
    } else if word == "tentative"@ {
        Some(IFA_F_TENTATIVE)
    } else if word == "dadfailed"@ {
        Some(IFA_F_DADFAILED)
    } else if word == "stable_privacy"@ {
        Some(IFA_F_STABLE_PRIVACY)
    } else if word == "managetempaddr"@ {
        Some(IFA_F_MANAGETEMPADDR)
    } else {
        None
    }
}

/// What is said of a word that stands for no address flag.
pub open spec fn invalid_flag(word: Seq<char>) -> Seq<char> {
    "filters.ignore_addr_flags invalid value: "@ + word
        + "; must be one of temporary|optimistic|deprecated|tentative|dadfailed|stable_privacy|managetempaddr"@
}

/// The address flags that words stand for, together; or what is said where they are refused.
pub open spec fn flags_read(words: Seq<Seq<char>>) -> Result<u32, Seq<char>>
    decreases words.len(),
{
    if words.len() == 0 {
        Ok(0u32)
    } else {
        match flags_read(words.drop_last()) {
            Err(m) => Err(m),
            Ok(mask) => {
                let word = words.last();
                if word.len() == 0 {
                    Err("filters.ignore_addr_flags must not contain empty value"@)
                } else {
                    match flag_bit(word) {
                        None => Err(invalid_flag(word)),
                        Some(bit) => if words.drop_last().contains(word) {
                            Err("filters.ignore_addr_flags duplicate value: "@ + word)
                        } else {
                            Ok(mask | bit)
                        },
                    }
                }
            },
        }
    }
}

/// Where the first words are refused, all of them are.
proof fn lemma_flags_refused(words: Seq<Seq<char>>, n: int)
    requires
        0 <= n <= words.len(),
        flags_read(words.subrange(0, n)) is Err,
    ensures
        flags_read(words) == flags_read(words.subrange(0, n)),
    decreases words.len() - n,
{
    if n == words.len() {
        assert(words.subrange(0, n) =~= words);
    } else {
        assert(words.subrange(0, n + 1).drop_last() =~= words.subrange(0, n));
        lemma_flags_refused(words, n + 1);
    }
}

/// The address flag that a word stands for.
fn flag_of(word: &str) -> (r: Option<u32>)
    ensures
        r == flag_bit(word@),
{
    if str_eq(word, "temporary") {
        Some(IFA_F_TEMPORARY)
    } else if str_eq(word, "optimistic") {
        Some(IFA_F_OPTIMISTIC)
    } else if str_eq(word, "deprecated") {
        Some(IFA_F_DEPRECATED)
    } else if str_eq(word, "tentative") {
        Some(IFA_F_TENTATIVE)
    } else if str_eq(word, "dadfailed") {
        Some(IFA_F_DADFAILED)
    } else if str_eq(word, "stable_privacy") {
        Some(IFA_F_STABLE_PRIVACY)
    } else if str_eq(word, "managetempaddr") {
        Some(IFA_F_MANAGETEMPADDR)
    } else {
        None
    }
}

/// An error about a value, between two texts.
fn value_is_bad(before: &str, value: &str, after: &str) -> (r: AppError)
    ensures
        r@ == ErrorView::Config(before@ + value@ + after@),
{
    let mut s = String::new();
    s.append(before);
    s.append(value);
    s.append(after);
    assert(s@ =~= before@ + value@ + after@);
    AppError::Config(s)
}

/// An error that ends with a value.
fn value_is_refused(before: &str, value: &str) -> (r: AppError)
    ensures
        r@ == ErrorView::Config(before@ + value@),
{
    proof {
        reveal_strlit("");
        assert(before@ + value@ + ""@ =~= before@ + value@);
    }
    value_is_bad(before, value, "")
}

/// The address flags that words stand for, together.
pub fn parse_ignore_flag_mask(values: &[String]) -> (r: Result<u32, AppError>)
    ensures
        match r {
            Ok(mask) => flags_read(string_views(values@)) == Ok::<u32, Seq<char>>(mask),
            Err(e) => (flags_read(string_views(values@)) matches Err(m) && e@ == ErrorView::Config(
                m,
            )),
        },
{
    let ghost all = string_views(values@);
    let mut mask: u32 = 0;
    let mut seen: FxHashSet<u32> = set_new();
    assert(all.subrange(0, 0) =~= Seq::<Seq<char>>::empty());
    for i in 0..values.len()
        invariant
            all == string_views(values@),
            flags_read(all.subrange(0, i as int)) == Ok::<u32, Seq<char>>(mask),
            forall|bit: u32|
                #[trigger] seen@.contains(bit) ==> exists|j: int|
                    0 <= j < i && flag_bit(#[trigger] all[j]) == Some(bit),
            forall|j: int|
                0 <= j < i ==> (flag_bit(#[trigger] all[j]) matches Some(bit) && seen@.contains(
                    bit,
                )),
    {
        let raw = values[i].as_str();
        let ghost prefix = all.subrange(0, i as int);
        proof {
            assert(all.subrange(0, i + 1).drop_last() =~= prefix);
            assert(all.subrange(0, i + 1).last() == raw@);
            assert(all[i as int] == raw@);
        }
        if raw.unicode_len() == 0 {
            proof {
                lemma_flags_refused(all, i + 1);
            }
            return Err(
                AppError::config("filters.ignore_addr_flags must not contain empty value"),
            );
        }
        let bit: u32 = match flag_of(raw) {
            Some(bit) => bit,
            None => {
                proof {
                    lemma_flags_refused(all, i + 1);
                }
                return Err(
                    value_is_bad(
                        "filters.ignore_addr_flags invalid value: ",
                        raw,
                        "; must be one of temporary|optimistic|deprecated|tentative|dadfailed|stable_privacy|managetempaddr",
                    ),
                );
            },
        };
        let ghost before = seen@;
        if !set_insert(&mut seen, bit) {
            proof {
                let j = choose|j: int| 0 <= j < i && flag_bit(#[trigger] all[j]) == Some(bit);
                assert(all[j] == raw@);
                assert(prefix[j] == raw@);
                lemma_flags_refused(all, i + 1);
            }
            return Err(value_is_refused("filters.ignore_addr_flags duplicate value: ", raw));
        }
        proof {
            if prefix.contains(raw@) {
                let j = choose|j: int| 0 <= j < prefix.len() && prefix[j] == raw@;
                assert(all[j] == raw@);
                assert(before.contains(bit));
            }
        }
        mask = mask | bit;
    }
    assert(all.subrange(0, all.len() as int) =~= all);
    Ok(mask)
}

/// The addresses that texts denote; or what is said where they are refused. `parsed` holds what
/// each text denotes, if anything.
pub open spec fn ips_read(texts: Seq<Seq<char>>, parsed: Seq<Option<IpAddr>>) -> Result<
    Seq<IpAddr>,
    Seq<char>,
>
    decreases texts.len(),
{
    if texts.len() == 0 {
        Ok(Seq::empty())
    } else {
        match ips_read(texts.drop_last(), parsed) {
            Err(m) => Err(m),
            Ok(ips) => {
                let text = texts.last();
                if text.len() == 0 {
                    Err("filters.ignore_ips must not contain empty value"@)
                } else {
                    match parsed[texts.len() - 1] {
                        None => Err("filters.ignore_ips invalid ip: "@ + text),
                        Some(ip) => if ips.contains(ip) {
                            Err("filters.ignore_ips duplicate ip: "@ + text)
                        } else {
                            Ok(ips.push(ip))
                        },
                    }
                }
            },
        }
    }
}

/// Where the first texts are refused, all of them are.
proof fn lemma_ips_refused(texts: Seq<Seq<char>>, parsed: Seq<Option<IpAddr>>, n: int)
    requires
        0 <= n <= texts.len(),
        ips_read(texts.subrange(0, n), parsed) is Err,
    ensures
        ips_read(texts, parsed) == ips_read(texts.subrange(0, n), parsed),
    decreases texts.len() - n,
{
    if n == texts.len() {
        assert(texts.subrange(0, n) =~= texts);
    } else {
        assert(texts.subrange(0, n + 1).drop_last() =~= texts.subrange(0, n));
        lemma_ips_refused(texts, parsed, n + 1);
    }
}

/// Accepts or refuses texts of addresses. `parsed` holds what each text denotes, if anything.
pub fn accept_ips(values: &[String], parsed: &[Option<IpAddr>]) -> (r: Result<
    Vec<IpAddr>,
    AppError,
>)
    requires
        parsed@.len() == values@.len(),
    ensures
        match r {
            Ok(ips) => ips_read(string_views(values@), parsed@) == Ok::<Seq<IpAddr>, Seq<char>>(
                ips@,
            ),
            Err(e) => (ips_read(string_views(values@), parsed@) matches Err(m) && e@
                == ErrorView::Config(m)),
        },
{
    let ghost all = string_views(values@);
    let mut out: Vec<IpAddr> = Vec::new();
    let mut seen = IpSet::new();
    assert(all.subrange(0, 0) =~= Seq::<Seq<char>>::empty());
    for i in 0..values.len()
        invariant
            all == string_views(values@),
            parsed@.len() == values@.len(),
            ips_read(all.subrange(0, i as int), parsed@) == Ok::<Seq<IpAddr>, Seq<char>>(out@),
            forall|k: IpKey|
                #[trigger] seen@.contains(k) ==> exists|j: int|
                    0 <= j < out@.len() && key_of(#[trigger] out@[j]) == k,
            forall|j: int| 0 <= j < out@.len() ==> seen@.contains(key_of(#[trigger] out@[j])),
    {
        let raw = values[i].as_str();
        proof {
            assert(all.subrange(0, i + 1).drop_last() =~= all.subrange(0, i as int));
            assert(all.subrange(0, i + 1).last() == raw@);
        }
        if raw.unicode_len() == 0 {
            proof {
                lemma_ips_refused(all, parsed@, i + 1);
            }
            return Err(AppError::config("filters.ignore_ips must not contain empty value"));
        }
        let ip: IpAddr = match parsed[i] {
            Some(ip) => ip,
            None => {
                proof {
                    lemma_ips_refused(all, parsed@, i + 1);
                }
                return Err(value_is_refused("filters.ignore_ips invalid ip: ", raw));
            },
        };
        let ghost had = out@;
        let ghost before = seen@;
        if !seen.insert(IpKey::from_ip(ip)) {
            proof {
                let j = choose|j: int| 0 <= j < had.len() && key_of(#[trigger] had[j]) == key_of(ip);
                key_determines_address(had[j], ip);
                assert(had.contains(ip));
                lemma_ips_refused(all, parsed@, i + 1);
            }
            return Err(value_is_refused("filters.ignore_ips duplicate ip: ", raw));
        }
        proof {
            if had.contains(ip) {
                let j = choose|j: int| 0 <= j < had.len() && had[j] == ip;
                assert(before.contains(key_of(had[j])));
            }
        }
        out.push(ip);
        proof {
            assert forall|k: IpKey| #[trigger] seen@.contains(k) implies exists|j: int|
                0 <= j < out@.len() && key_of(#[trigger] out@[j]) == k by {
                if k == key_of(ip) {
                    assert(out@[out@.len() - 1] == ip);
                } else {
                    assert(before.contains(k));
                    let j = choose|j: int| 0 <= j < had.len() && key_of(#[trigger] had[j]) == k;
                    assert(out@[j] == had[j]);
                }
            }
            assert forall|j: int| 0 <= j < out@.len() implies seen@.contains(
                key_of(#[trigger] out@[j]),
            ) by {
                if j < had.len() {
                    assert(out@[j] == had[j]);
                }
            }
        }
    }
    assert(all.subrange(0, all.len() as int) =~= all);
    Ok(out)
}

/// What each text denotes, if anything.
pub open spec fn ips_of(texts: Seq<Seq<char>>) -> Seq<Option<IpAddr>> {
    Seq::new(texts.len(), |i: int| ip_of_text(texts[i]))
}

/// Tells what each text denotes, if anything.
fn parse_ips(values: &[String]) -> (r: Vec<Option<IpAddr>>)
    ensures
        r@ == ips_of(string_views(values@)),
{
    let mut parsed: Vec<Option<IpAddr>> = Vec::new();
    for i in 0..values.len()
        invariant
            parsed@.len() == i,
            forall|j: int| 0 <= j < i ==> #[trigger] parsed@[j] == ip_of_text(values@[j]@),
    {
        parsed.push(parse_ip(values[i].as_str()));
    }
    assert(parsed@ =~= ips_of(string_views(values@)));
    parsed
}

/// The addresses that texts denote.
pub fn parse_ip_list(values: &[String]) -> (r: Result<Vec<IpAddr>, AppError>)
    ensures
        ({
            let texts = string_views(values@);
            match r {
                Ok(ips) => ips_read(texts, ips_of(texts)) == Ok::<Seq<IpAddr>, Seq<char>>(ips@),
                Err(e) => (ips_read(texts, ips_of(texts)) matches Err(m) && e@
                    == ErrorView::Config(m)),
            }
        }),
{
    let parsed = parse_ips(values);
    accept_ips(values, parsed.as_slice())
}

/// The part of a network's text that denotes its address: what stands before the first slash.
pub fn cidr_address(raw: &str) -> (r: Option<&str>)
    ensures
        match r {
            Some(text) => find(raw@, '/') < raw@.len() && text@ == raw@.take(find(raw@, '/')),
            None => find(raw@, '/') >= raw@.len(),
        },
{
    let chars = chars_of(raw);
    let k: usize = find_char(chars.as_slice(), '/');
    if k >= chars.len() {
        return None;
    }
    assert(raw@.subrange(0, k as int) =~= raw@.take(k as int));
    Some(raw.substring_char(0, k))
}

/// The network that a text denotes, if any. `parsed` is the address that the text before the
/// slash denotes, if any.
pub open spec fn cidr_of(text: Seq<char>, parsed: Option<IpAddr>) -> Option<(IpAddr, u8)> {
    let k = find(text, '/');
    if k >= text.len() {
        None
    } else {
        match (parsed, unsigned_value(text.skip(k + 1), 10, 255)) {
            (Some(addr), Some(prefix)) => if valid_prefix(addr, prefix as u8) {
                Some((addr, prefix as u8))
            } else {
                None
            },
            _ => None,
        }
    }
}

/// The network that a text denotes, if any.
pub fn parse_cidr(raw: &str, parsed: Option<IpAddr>) -> (r: Option<(IpAddr, u8)>)
    ensures
        r == cidr_of(raw@, parsed),
{
    let chars = chars_of(raw);
    let n: usize = chars.len();
    let k: usize = find_char(chars.as_slice(), '/');
    if k >= n {
        return None;
    }
    assert(chars@.subrange(k + 1, n as int) =~= raw@.skip(k + 1));
    let addr: IpAddr = match parsed {
        Some(addr) => addr,
        None => return None,
    };
    let prefix: u8 = match parse_unsigned(slice_subrange(chars.as_slice(), k + 1, n), 10, 255) {
        Some(prefix) => prefix as u8,
        None => return None,
    };
    let max_prefix: u8 = match addr {
        IpAddr::V4(_) => 32,
        IpAddr::V6(_) => 128,
    };
    if prefix > max_prefix {
        return None;
    }
    Some((addr, prefix))
}

/// The networks that texts denote; or what is said where they are refused. `parsed` holds the
/// address that each text denotes before its slash, if any.
pub open spec fn cidrs_read(texts: Seq<Seq<char>>, parsed: Seq<Option<IpAddr>>) -> Result<
    Seq<(IpAddr, u8)>,
    Seq<char>,
>
    decreases texts.len(),
{
    if texts.len() == 0 {
        Ok(Seq::empty())
    } else {
        match cidrs_read(texts.drop_last(), parsed) {
            Err(m) => Err(m),
            Ok(cidrs) => {
                let text = texts.last();
                if text.len() == 0 {
                    Err("filters.ignore_cidrs must not contain empty value"@)
                } else {
                    match cidr_of(text, parsed[texts.len() - 1]) {
                        None => Err("filters.ignore_cidrs invalid cidr: "@ + text),
                        Some(cidr) => if cidrs.contains(cidr) {
                            Err("filters.ignore_cidrs duplicate cidr: "@ + text)
                        } else {
                            Ok(cidrs.push(cidr))
                        },
                    }
                }
            },
        }
    }
}

/// Where the first texts are refused, all of them are.
proof fn lemma_cidrs_refused(texts: Seq<Seq<char>>, parsed: Seq<Option<IpAddr>>, n: int)
    requires
        0 <= n <= texts.len(),
        cidrs_read(texts.subrange(0, n), parsed) is Err,
    ensures
        cidrs_read(texts, parsed) == cidrs_read(texts.subrange(0, n), parsed),
    decreases texts.len() - n,
{
    if n == texts.len() {
        assert(texts.subrange(0, n) =~= texts);
    } else {
        assert(texts.subrange(0, n + 1).drop_last() =~= texts.subrange(0, n));
        lemma_cidrs_refused(texts, parsed, n + 1);
    }
}

/// Networks that were seen: the keys of their addresses, one set for each length of prefix.
struct SeenCidrs {
    by_prefix: Vec<IpSet>,
}

impl SeenCidrs {
    /// There is a set for each length of prefix.
    closed spec fn wf(&self) -> bool {
        self.by_prefix@.len() == 129
    }

    /// Whether a network was seen.
    closed spec fn has(&self, key: IpKey, prefix: u8) -> bool {
        self.by_prefix@[prefix as int]@.contains(key)
    }

    /// No network was seen.
    fn new() -> (r: Self)
        ensures
            r.wf(),
            forall|key: IpKey, prefix: u8| prefix <= 128 ==> !#[trigger] r.has(key, prefix),
    {
        let mut by_prefix: Vec<IpSet> = Vec::new();
        for i in 0..129usize
            invariant
                by_prefix@.len() == i,
                forall|j: int| 0 <= j < i ==> (#[trigger] by_prefix@[j])@ == Set::<IpKey>::empty(),
        {
            by_prefix.push(IpSet::new());
        }
        SeenCidrs { by_prefix }
    }

    /// Notes a network and tells whether it was not seen before.
    fn insert(&mut self, key: IpKey, prefix: u8) -> (fresh: bool)
        requires
            old(self).wf(),
            prefix <= 128,
        ensures
            final(self).wf(),
            fresh == !old(self).has(key, prefix),
            forall|k: IpKey, p: u8|
                p <= 128 ==> #[trigger] final(self).has(k, p) == (old(self).has(k, p) || (k == key
                    && p == prefix)),
    {
        let i: usize = prefix as usize;
        let ghost before = *self;
        let fresh = self.by_prefix[i].insert(key);
        assert forall|k: IpKey, p: u8| p <= 128 implies #[trigger] self.has(k, p) == (before.has(k, p)
            || (k == key && p == prefix)) by {
            if p != prefix {
                assert(self.by_prefix@[p as int] == before.by_prefix@[p as int]);
            }
        }
        fresh
    }
}

/// Accepts or refuses texts of networks. `parsed` holds the address that each text denotes before
/// its slash, if any.
pub fn accept_cidrs(values: &[String], parsed: &[Option<IpAddr>]) -> (r: Result<
    Vec<(IpAddr, u8)>,
    AppError,
>)
    requires
        parsed@.len() == values@.len(),
    ensures
        match r {
            Ok(cidrs) => cidrs_read(string_views(values@), parsed@) == Ok::<
                Seq<(IpAddr, u8)>,
                Seq<char>,
            >(cidrs@),
            Err(e) => (cidrs_read(string_views(values@), parsed@) matches Err(m) && e@
                == ErrorView::Config(m)),
        },
{
    let ghost all = string_views(values@);
    let mut out: Vec<(IpAddr, u8)> = Vec::new();
    let mut seen = SeenCidrs::new();
    assert(all.subrange(0, 0) =~= Seq::<Seq<char>>::empty());
    for i in 0..values.len()
        invariant
            all == string_views(values@),
            parsed@.len() == values@.len(),
            seen.wf(),
            cidrs_read(all.subrange(0, i as int), parsed@) == Ok::<Seq<(IpAddr, u8)>, Seq<char>>(
                out@,
            ),
            valid_networks(out@),
            forall|k: IpKey, p: u8|
                p <= 128 && #[trigger] seen.has(k, p) ==> exists|j: int|
                    0 <= j < out@.len() && key_of((#[trigger] out@[j]).0) == k && out@[j].1 == p,
            forall|j: int|
                0 <= j < out@.len() ==> seen.has(key_of((#[trigger] out@[j]).0), out@[j].1),
    {
        let raw = values[i].as_str();
        proof {
            assert(all.subrange(0, i + 1).drop_last() =~= all.subrange(0, i as int));
            assert(all.subrange(0, i + 1).last() == raw@);
        }
        if raw.unicode_len() == 0 {
            proof {
                lemma_cidrs_refused(all, parsed@, i + 1);
            }
            return Err(AppError::config("filters.ignore_cidrs must not contain empty value"));
        }
        let cidr: (IpAddr, u8) = match parse_cidr(raw, parsed[i]) {
            Some(cidr) => cidr,
            None => {
                proof {
                    lemma_cidrs_refused(all, parsed@, i + 1);
                }
                return Err(value_is_refused("filters.ignore_cidrs invalid cidr: ", raw));
            },
        };
        let ghost had = out@;
        let ghost before = seen;
        assert(valid_prefix(cidr.0, cidr.1));
        if !seen.insert(IpKey::from_ip(cidr.0), cidr.1) {
            proof {
                let j = choose|j: int|
                    0 <= j < had.len() && key_of((#[trigger] had[j]).0) == key_of(cidr.0)
                        && had[j].1 == cidr.1;
                key_determines_address(had[j].0, cidr.0);
                assert(had[j] == cidr);
                assert(had.contains(cidr));
                lemma_cidrs_refused(all, parsed@, i + 1);
            }
            return Err(value_is_refused("filters.ignore_cidrs duplicate cidr: ", raw));
        }
        proof {
            if had.contains(cidr) {
                let j = choose|j: int| 0 <= j < had.len() && had[j] == cidr;
                assert(before.has(key_of(had[j].0), had[j].1));
            }
        }
        out.push(cidr);
        proof {
            assert forall|k: IpKey, p: u8| p <= 128 && #[trigger] seen.has(k, p) implies exists|
                j: int,
            |
                0 <= j < out@.len() && key_of((#[trigger] out@[j]).0) == k && out@[j].1 == p by {
                if k == key_of(cidr.0) && p == cidr.1 {
                    assert(out@[out@.len() - 1] == cidr);
                } else {
                    assert(before.has(k, p));
                    let j = choose|j: int|
                        0 <= j < had.len() && key_of((#[trigger] had[j]).0) == k && had[j].1 == p;
                    assert(out@[j] == had[j]);
                }
            }
            assert forall|j: int| 0 <= j < out@.len() implies seen.has(
                key_of((#[trigger] out@[j]).0),
                out@[j].1,
            ) && valid_prefix(out@[j].0, out@[j].1) by {
                if j < had.len() {
                    assert(out@[j] == had[j]);
                    assert(before.has(key_of(had[j].0), had[j].1));
                    assert(valid_prefix(had[j].0, had[j].1));
                }
            }
        }
    }
    assert(all.subrange(0, all.len() as int) =~= all);
    Ok(out)
}

/// The address that a text denotes before its slash, if any.
pub open spec fn cidr_ip(text: Seq<char>) -> Option<IpAddr> {
    let k = find(text, '/');
    if k >= text.len() {
        None
    } else {
        ip_of_text(text.take(k))
    }
}

/// The address that each text denotes before its slash, if any.
pub open spec fn cidr_ips_of(texts: Seq<Seq<char>>) -> Seq<Option<IpAddr>> {
    Seq::new(texts.len(), |i: int| cidr_ip(texts[i]))
}

/// Tells which address each text denotes before its slash, if any.
fn parse_cidr_ips(values: &[String]) -> (r: Vec<Option<IpAddr>>)
    ensures
        r@ == cidr_ips_of(string_views(values@)),
{
    let mut parsed: Vec<Option<IpAddr>> = Vec::new();
    for i in 0..values.len()
        invariant
            parsed@.len() == i,
            forall|j: int| 0 <= j < i ==> #[trigger] parsed@[j] == cidr_ip(values@[j]@),
    {
        let addr: Option<IpAddr> = match cidr_address(values[i].as_str()) {
            Some(text) => parse_ip(text),
            None => None,
        };
        parsed.push(addr);
    }
    assert(parsed@ =~= cidr_ips_of(string_views(values@)));
    parsed
}

/// The networks that texts denote.
pub fn parse_cidr_list(values: &[String]) -> (r: Result<Vec<(IpAddr, u8)>, AppError>)
    ensures
        ({
            let texts = string_views(values@);
            match r {
                Ok(cidrs) => cidrs_read(texts, cidr_ips_of(texts)) == Ok::<
                    Seq<(IpAddr, u8)>,
                    Seq<char>,
                >(cidrs@),
                Err(e) => (cidrs_read(texts, cidr_ips_of(texts)) matches Err(m) && e@
                    == ErrorView::Config(m)),
            }
        }),
{
    let parsed = parse_cidr_ips(values);
    accept_cidrs(values, parsed.as_slice())
}

// ---------------------------------------------------------------------------
// Options
// ---------------------------------------------------------------------------

/// What the configuration file says, once it was checked.
pub struct Checked {
    pub work_dir: Seq<u8>,
    pub config_path: Seq<u8>,
    pub log_level: Level,
    pub ipv6: bool,
    pub debounce_ms: u64,
    pub debounce_max_ms: u64,
    pub batch_max: usize,
    pub log_file: Seq<u8>,
    pub pref: u32,
    pub table_id: u32,
    pub ignore_addr_flag_mask: u32,
    pub ignore_ips: Seq<IpAddr>,
    pub ignore_cidrs: Seq<(IpAddr, u8)>,
}

impl View for Options {
    type V = Checked;

    open spec fn view(&self) -> Checked {
        Checked {
            work_dir: self.work_dir@,
            config_path: self.config_path@,
            log_level: self.log_level,
            ipv6: self.ipv6,
            debounce_ms: self.debounce_ms,
            debounce_max_ms: self.debounce_max_ms,
            batch_max: self.batch_max,
            log_file: self.log_file@,
            pref: self.pref,
            table_id: self.table_id,
            ignore_addr_flag_mask: self.ignore_addr_flag_mask,
            ignore_ips: self.ignore_ips@,
            ignore_cidrs: self.ignore_cidrs@,
        }
    }
}

/// What is wrong with the numbers, the level and the path of the log, in the order in which it is
/// found.
pub open spec fn value_error(raw: Raw) -> Option<Seq<char>> {
    if raw.daemon.debounce_ms == 0 {
        Some(not_positive("daemon.debounce_ms"@))
    } else if raw.daemon.debounce_max_ms == 0 {
        Some(not_positive("daemon.debounce_max_ms"@))
    } else if raw.daemon.batch_max == 0 {
        Some("daemon.batch_max must be positive"@)
    } else if raw.rule.pref == 0 {
        Some("rule.pref must be positive"@)
    } else if raw.rule.table_id == 0 {
        Some("rule.table_id must be positive"@)
    } else if level_of(raw.log.level) is None {
        Some("log.level "@ + "must be exactly one of error|warn|info|debug"@)
    } else if encode_utf8(raw.log.file).len() == 0 {
        Some(not_empty("log.file"@))
    } else {
        None
    }
}

/// What a configuration is accepted as, or what is said where it is refused. `ips` holds what each
/// text of `ignore_ips` denotes, and `cidr_addrs` what each text of `ignore_cidrs` denotes before
/// its slash.
pub open spec fn checked(
    raw: Raw,
    work_dir: Seq<u8>,
    config_path: Seq<u8>,
    ips: Seq<Option<IpAddr>>,
    cidr_addrs: Seq<Option<IpAddr>>,
) -> Result<Checked, Seq<char>> {
    match value_error(raw) {
        Some(m) => Err(m),
        None => match flags_read(raw.filters.ignore_addr_flags) {
            Err(m) => Err(m),
            Ok(ignore_addr_flag_mask) => match ips_read(raw.filters.ignore_ips, ips) {
                Err(m) => Err(m),
                Ok(ignore_ips) => match cidrs_read(raw.filters.ignore_cidrs, cidr_addrs) {
                    Err(m) => Err(m),
                    Ok(ignore_cidrs) => Ok(
                        Checked {
                            work_dir,
                            config_path,
                            log_level: level_of(raw.log.level)->0,
                            ipv6: raw.daemon.ipv6,
                            debounce_ms: raw.daemon.debounce_ms,
                            debounce_max_ms: if raw.daemon.debounce_max_ms
                                >= raw.daemon.debounce_ms {
                                raw.daemon.debounce_max_ms
                            } else {
                                raw.daemon.debounce_ms
                            },
                            batch_max: raw.daemon.batch_max,
                            log_file: joined_path(work_dir, encode_utf8(raw.log.file)),
                            pref: raw.rule.pref,
                            table_id: raw.rule.table_id,
                            ignore_addr_flag_mask,
                            ignore_ips,
                            ignore_cidrs,
                        },
                    ),
                },
            },
        },
    }
}

/// Checks the numbers, the level and the path of the log.
fn check_values(raw: &RawConfig, work_dir: &[u8]) -> (r: Result<(Level, Vec<u8>), AppError>)
    ensures
        match r {
            Ok((level, file)) => value_error(raw@) is None && level_of(raw.log_level@) == Some(
                level,
            ) && file@ == joined_path(work_dir@, encode_utf8(raw.log_file@)),
            Err(e) => (value_error(raw@) matches Some(m) && e@ == ErrorView::Config(m)),
        },
{
    if let Err(e) = validate_positive(raw.debounce_ms, "daemon.debounce_ms") {
        return Err(e);
    }
    if let Err(e) = validate_positive(raw.debounce_max_ms, "daemon.debounce_max_ms") {
        return Err(e);
    }
    if raw.batch_max == 0 {
        return Err(AppError::config("daemon.batch_max must be positive"));
    }
    if raw.pref == 0 {
        return Err(AppError::config("rule.pref must be positive"));
    }
    if raw.table_id == 0 {
        return Err(AppError::config("rule.table_id must be positive"));
    }
    let level = match Level::parse(raw.log_level.as_str()) {
        Ok(level) => level,
        Err(e) => return Err(value_is_refused("log.level ", e)),
    };
    match resolve_relative_path(raw.log_file.as_str().as_bytes(), work_dir, "log.file") {
        Ok(file) => Ok((level, file)),
        Err(e) => Err(e),
    }
}

impl Options {
    /// Checks what a configuration file says.
    pub fn load(raw: RawConfig, work_dir: Vec<u8>, config_path: Vec<u8>) -> (r: Result<
        Options,
        AppError,
    >)
        ensures
            ({
                let outcome = checked(
                    raw@,
                    work_dir@,
                    config_path@,
                    ips_of(raw@.filters.ignore_ips),
                    cidr_ips_of(raw@.filters.ignore_cidrs),
                );
                match r {
                    Ok(opts) => outcome == Ok::<Checked, Seq<char>>(opts@),
                    Err(e) => (outcome matches Err(m) && e@ == ErrorView::Config(m)),
                }
            }),
    {
        let ips = parse_ips(raw.ignore_ips.as_slice());
        let cidr_addrs = parse_cidr_ips(raw.ignore_cidrs.as_slice());
        Self::accept(raw, work_dir, config_path, ips.as_slice(), cidr_addrs.as_slice())
    }

    /// Accepts or refuses what a configuration file says. `ips` holds what each text of
    /// `ignore_ips` denotes, and `cidr_addrs` what each text of `ignore_cidrs` denotes before its
    /// slash.
    pub fn accept(
        raw: RawConfig,
        work_dir: Vec<u8>,
        config_path: Vec<u8>,
        ips: &[Option<IpAddr>],
        cidr_addrs: &[Option<IpAddr>],
    ) -> (r: Result<Options, AppError>)
        requires
            ips@.len() == raw.ignore_ips@.len(),
            cidr_addrs@.len() == raw.ignore_cidrs@.len(),
        ensures
            match r {
                Ok(opts) => checked(raw@, work_dir@, config_path@, ips@, cidr_addrs@) == Ok::<
                    Checked,
                    Seq<char>,
                >(opts@),
                Err(e) => (checked(raw@, work_dir@, config_path@, ips@, cidr_addrs@) matches Err(m)
                    && e@ == ErrorView::Config(m)),
            },
    {
        let (log_level, log_file) = match check_values(&raw, work_dir.as_slice()) {
            Ok(v) => v,
            Err(e) => return Err(e),
        };
        let debounce_max_ms: u64 = if raw.debounce_max_ms >= raw.debounce_ms {
            raw.debounce_max_ms
        } else {
            raw.debounce_ms
        };
        let ignore_addr_flag_mask: u32 = match parse_ignore_flag_mask(
            raw.ignore_addr_flags.as_slice(),
        ) {
            Ok(mask) => mask,
            Err(e) => return Err(e),
        };
        let ignore_ips = match accept_ips(raw.ignore_ips.as_slice(), ips) {
            Ok(v) => v,
            Err(e) => return Err(e),
        };
        let ignore_cidrs = match accept_cidrs(raw.ignore_cidrs.as_slice(), cidr_addrs) {
            Ok(v) => v,
            Err(e) => return Err(e),
        };
        Ok(
            Options {
                work_dir,
                config_path,
                log_level,
                ipv6: raw.ipv6,
                debounce_ms: raw.debounce_ms,
                debounce_max_ms,
                batch_max: raw.batch_max,
                log_file,
                pref: raw.pref,
                table_id: raw.table_id,
                ignore_addr_flag_mask,
                ignore_ips,
                ignore_cidrs,
            },
        )
    }
}

/// Addresses that were accepted are all different.
proof fn lemma_ips_differ(texts: Seq<Seq<char>>, parsed: Seq<Option<IpAddr>>)
    ensures
        ips_read(texts, parsed) matches Ok(ips) ==> ips.no_duplicates() && ips.len()
            == texts.len(),
    decreases texts.len(),
{
    if texts.len() > 0 {
        lemma_ips_differ(texts.drop_last(), parsed);
    }
}

/// Networks that were accepted are all different, and their prefixes fit their families.
proof fn lemma_cidrs_differ(texts: Seq<Seq<char>>, parsed: Seq<Option<IpAddr>>)
    ensures
        cidrs_read(texts, parsed) matches Ok(cidrs) ==> cidrs.no_duplicates() && valid_networks(
            cidrs,
        ) && cidrs.len() == texts.len(),
    decreases texts.len(),
{
    if texts.len() > 0 {
        lemma_cidrs_differ(texts.drop_last(), parsed);
    }
}

/// Flags that were accepted are words that stand for a flag, all different.
proof fn lemma_flags_differ(words: Seq<Seq<char>>)
    ensures
        flags_read(words) is Ok ==> words.no_duplicates() && forall|i: int|
            0 <= i < words.len() ==> flag_bit(#[trigger] words[i]) is Some,
    decreases words.len(),
{
    if words.len() > 0 {
        let front = words.drop_last();
        lemma_flags_differ(front);
        if flags_read(words) is Ok {
            assert forall|i: int, j: int| 0 <= i < words.len() && 0 <= j < words.len() && i
                != j implies words[i] != words[j] by {
                if i < front.len() && j < front.len() {
                    assert(front[i] == words[i] && front[j] == words[j]);
                } else if i < front.len() {
                    assert(front[i] == words[i]);
                } else {
                    assert(front[j] == words[j]);
                }
            }
            assert forall|i: int| 0 <= i < words.len() implies flag_bit(#[trigger] words[i]) is Some by {
                if i < front.len() {
                    assert(front[i] == words[i]);
                }
            }
        }
    }
}

/// Whatever configuration is accepted has positive numbers, a longest delay that is no shorter
/// than the usual one, a path for its log, and filters without duplicates, whose words all stand
/// for flags and whose networks fit their families.
pub proof fn accepted_configuration_is_valid(
    raw: Raw,
    work_dir: Seq<u8>,
    config_path: Seq<u8>,
    ips: Seq<Option<IpAddr>>,
    cidr_addrs: Seq<Option<IpAddr>>,
)
    requires
        checked(raw, work_dir, config_path, ips, cidr_addrs) is Ok,
    ensures
        ({
            let c = checked(raw, work_dir, config_path, ips, cidr_addrs)->Ok_0;
            &&& 0 < c.debounce_ms <= c.debounce_max_ms
            &&& c.batch_max > 0
            &&& c.pref > 0
            &&& c.table_id > 0
            &&& c.log_file.len() > 0
            &&& raw.filters.ignore_addr_flags.no_duplicates()
            &&& forall|i: int|
                0 <= i < raw.filters.ignore_addr_flags.len() ==> flag_bit(
                    #[trigger] raw.filters.ignore_addr_flags[i],
                ) is Some
            &&& c.ignore_ips.no_duplicates()
            &&& c.ignore_ips.len() == raw.filters.ignore_ips.len()
            &&& c.ignore_cidrs.no_duplicates()
            &&& c.ignore_cidrs.len() == raw.filters.ignore_cidrs.len()
            &&& valid_networks(c.ignore_cidrs)
        }),
{
    lemma_flags_differ(raw.filters.ignore_addr_flags);
    lemma_ips_differ(raw.filters.ignore_ips, ips);
    lemma_cidrs_differ(raw.filters.ignore_cidrs, cidr_addrs);
}

/// Options that were loaded are well-formed.
pub proof fn loaded_options_are_wf(opts: Options, raw: Raw, ips: Seq<Option<IpAddr>>, cidr_addrs:
    Seq<Option<IpAddr>>)
    requires
        checked(raw, opts.work_dir@, opts.config_path@, ips, cidr_addrs) == Ok::<
            Checked,
            Seq<char>,
        >(opts@),
    ensures
        opts.wf(),
{
    accepted_configuration_is_valid(raw, opts.work_dir@, opts.config_path@, ips, cidr_addrs);
}

/// The log goes to the path that the configuration names where that starts at the root, and below
/// the working directory where it does not.
pub proof fn log_path_is_resolved(
    raw: Raw,
    work_dir: Seq<u8>,
    config_path: Seq<u8>,
    ips: Seq<Option<IpAddr>>,
    cidr_addrs: Seq<Option<IpAddr>>,
)
    requires
        checked(raw, work_dir, config_path, ips, cidr_addrs) is Ok,
    ensures
        ({
            let file = checked(raw, work_dir, config_path, ips, cidr_addrs)->Ok_0.log_file;
            let named = encode_utf8(raw.log.file);
            if absolute(named) {
                file == named
            } else {
                file.len() >= work_dir.len() + named.len() && file.subrange(
                    0,
                    work_dir.len() as int,
                ) == work_dir && file.subrange(file.len() - named.len(), file.len() as int) == named
            }
        }),
{
    let named = encode_utf8(raw.log.file);
    let file = joined_path(work_dir, named);
    if !absolute(named) {
        assert(file.subrange(0, work_dir.len() as int) =~= work_dir);
        assert(file.subrange(file.len() - named.len(), file.len() as int) =~= named);
    }
}

/// A file that is accepted has each of the four sections, no other section, and no key that its
/// section may not have.
pub proof fn accepted_file_has_known_keys_only(text: Seq<char>, path: Seq<char>)
    requires
        text_outcome(text, path) is Read,
        toml_of(text).end != Some(TomlEnd::LoneQuote),
    ensures
        toml_of(text).end is None,
        ({
            let table = toml_of(text).table;
            &&& all_listed(table, known_sections())
            &&& forall|i: int|
                0 <= i < known_sections().len() ==> table.contains_key(
                    #[trigger] known_sections()[i],
                )
            &&& all_listed(table["daemon"@], daemon_keys())
            &&& all_listed(table["log"@], log_keys())
            &&& all_listed(table["rule"@], rule_keys())
            &&& all_listed(table["filters"@], filters_keys())
        }),
{
}

} // verus!
