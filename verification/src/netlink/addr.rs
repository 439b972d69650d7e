//! Address announcements and address dumps.
use crate::bytes::{read_u32, u32_at, ByteOrder};
use crate::error::{AppError, ErrorView};
use crate::fx::{map_insert, map_new, map_remove, set_contains, set_insert, set_new};
use crate::ip_key::{key_of, IpAddr, IpKey};
use crate::ip_set::{ascending, sort_dedup, sorted, IpSet};
use crate::netlink::codec::{
    build_netlink_request, nla_views, nlas, nlas_error, parse_nlas, request_bytes, Message,
    NetlinkMessageView, Nla, NlaView, IFA_ATTR_FLAGS,
};
use crate::netlink::dump_engine::message_views;
use crate::netlink::linux_types::{
    ifaddrmsg_at, ifaddrmsg_bytes, push_ifaddrmsg, read_ifaddrmsg, IfAddrMsg, IFADDRMSG_LEN,
};
use crate::netlink::raw_addr::RawAddrBuf;
use crate::netlink::rule::{addr_from_netlink, raw_key, RuleAction, RuleOp};
use crate::sys::{
    AF_INET, AF_INET6, IFA_ADDRESS, IFA_LOCAL, NLM_F_DUMP, NLM_F_REQUEST, RTM_DELADDR,
    RTM_GETADDR, RTM_NEWADDR,
};
use rustc_hash::{FxHashMap, FxHashSet};
use std::hash::Hash;
use vstd::prelude::*;
use vstd::slice::slice_subrange;
use vstd::std_specs::hash::obeys_key_model;

verus! {

// ---------------------------------------------------------------------------
// Addresses
// ---------------------------------------------------------------------------

/// The IPv4 key that an IPv4-mapped IPv6 key (`::ffff:0:0/96`) stands for; any other key itself.
pub open spec fn unmapped(key: IpKey) -> IpKey {
    match key {
        IpKey::V6(v) => if v / 0x1_0000_0000 == 0xFFFF {
            IpKey::V4((v % 0x1_0000_0000) as u32)
        } else {
            key
        },
        IpKey::V4(_) => key,
    }
}

/// Whether an address may have a rule: it is not unspecified, not loopback, not link-local.
pub open spec fn valid_key(key: IpKey) -> bool {
    match key {
        IpKey::V4(v) => v != 0 && v / 0x100_0000 != 127 && v / 0x1_0000 != 0xA9FE,
        IpKey::V6(v) => v != 0 && v != 1 && v / 0x40_0000_0000_0000_0000_0000_0000_0000 != 0x3FA,
    }
}

/// Replaces an IPv4-mapped IPv6 address by the IPv4 address.
pub fn unmap_addr(addr: IpAddr) -> (r: IpAddr)
    ensures
        key_of(r) == unmapped(key_of(addr)),
{
    match IpKey::from_ip(addr) {
        IpKey::V6(v) => if v / 0x1_0000_0000 == 0xFFFF {
            IpKey::V4((v % 0x1_0000_0000) as u32).into_ip()
        } else {
            addr
        },
        IpKey::V4(_) => addr,
    }
}

/// Whether an address may have a rule.
pub fn is_valid_addr(addr: IpAddr) -> (r: bool)
    ensures
        r == valid_key(key_of(addr)),
{
    match IpKey::from_ip(addr) {
        IpKey::V4(v) => v != 0 && v / 0x100_0000 != 127 && v / 0x1_0000 != 0xA9FE,
        IpKey::V6(v) => v != 0 && v != 1 && v / 0x40_0000_0000_0000_0000_0000_0000_0000 != 0x3FA,
    }
}

/// No key is mapped twice.
pub proof fn unmapped_is_idempotent(key: IpKey)
    ensures
        unmapped(unmapped(key)) == unmapped(key),
{
}

// ---------------------------------------------------------------------------
// Networks
// ---------------------------------------------------------------------------

/// The first `prefix` bits of a number, the others cleared.
pub open spec fn masked_v4(value: u32, prefix: u8) -> u32 {
    if prefix == 0 {
        0
    } else {
        value & (u32::MAX << ((32 - prefix) as u32))
    }
}

/// The first `prefix` bits of a number, the others cleared.
pub open spec fn masked_v6(value: u128, prefix: u8) -> u128 {
    if prefix == 0 {
        0
    } else {
        value & (u128::MAX << ((128 - prefix) as u32))
    }
}

/// Clears the bits of a number after the first `prefix`.
pub fn mask_v4(value: u32, prefix: u8) -> (r: u32)
    requires
        prefix <= 32,
    ensures
        r == masked_v4(value, prefix),
{
    if prefix == 0 {
        return 0;
    }
    let shift: u32 = (32 - prefix) as u32;
    let mask: u32 = u32::MAX << shift;
    value & mask
}

/// Clears the bits of a number after the first `prefix`.
pub fn mask_v6(value: u128, prefix: u8) -> (r: u128)
    requires
        prefix <= 128,
    ensures
        r == masked_v6(value, prefix),
{
    if prefix == 0 {
        return 0;
    }
    let shift: u32 = (128 - prefix) as u32;
    let mask: u128 = u128::MAX << shift;
    value & mask
}

/// Two numbers have the same masked value if and only if they agree in their first bits.
pub proof fn mask_v4_compares_prefix(a: u32, b: u32, prefix: u8)
    requires
        prefix <= 32,
    ensures
        prefix > 0 ==> (masked_v4(a, prefix) == masked_v4(b, prefix) <==> a >> ((32
            - prefix) as u32) == b >> ((32 - prefix) as u32)),
        prefix == 0 ==> masked_v4(a, prefix) == masked_v4(b, prefix),
{
    if prefix > 0 {
        let s = (32 - prefix) as u32;
        assert(s < 32);
        assert((a & (0xFFFF_FFFFu32 << s) == b & (0xFFFF_FFFFu32 << s)) == (a >> s == b >> s))
            by (bit_vector)
            requires
                s < 32,
        ;
    }
}

/// To clear the last bits is to shift them out and shift zeros in.
proof fn lemma_mask_v6_shifts(a: u128, s: u32)
    requires
        s < 128,
    ensures
        a & (u128::MAX << s) == (a >> s) << s,
        ((a >> s) << s) >> s == a >> s,
{
    assert(a & (0xFFFF_FFFF_FFFF_FFFF_FFFF_FFFF_FFFF_FFFFu128 << s) == (a >> s) << s) by (bit_vector)
        requires
            s < 128,
    ;
    assert(((a >> s) << s) >> s == a >> s) by (bit_vector)
        requires
            s < 128,
    ;
}

/// Two numbers have the same masked value if and only if they agree in their first bits.
pub proof fn mask_v6_compares_prefix(a: u128, b: u128, prefix: u8)
    requires
        prefix <= 128,
    ensures
        prefix > 0 ==> (masked_v6(a, prefix) == masked_v6(b, prefix) <==> a >> ((128
            - prefix) as u32) == b >> ((128 - prefix) as u32)),
        prefix == 0 ==> masked_v6(a, prefix) == masked_v6(b, prefix),
{
    if prefix > 0 {
        let s = (128 - prefix) as u32;
        assert(s < 128);
        lemma_mask_v6_shifts(a, s);
        lemma_mask_v6_shifts(b, s);
    }
}

/// Whether the prefix length is one that the address can have.
pub open spec fn valid_prefix(addr: IpAddr, prefix: u8) -> bool {
    match addr {
        IpAddr::V4(_) => prefix <= 32,
        IpAddr::V6(_) => prefix <= 128,
    }
}

/// Whether a key lies in a network.
pub open spec fn in_network(key: IpKey, net: IpKey, prefix: u8) -> bool {
    match (key, net) {
        (IpKey::V4(v), IpKey::V4(n)) => masked_v4(v, prefix) == masked_v4(n, prefix),
        (IpKey::V6(v), IpKey::V6(n)) => masked_v6(v, prefix) == masked_v6(n, prefix),
        _ => false,
    }
}

/// Whether a key lies in one of the networks.
pub open spec fn in_networks(key: IpKey, cidrs: Seq<(IpAddr, u8)>) -> bool {
    exists|i: int| 0 <= i < cidrs.len() && in_network(key, key_of(#[trigger] cidrs[i].0), cidrs[i].1)
}

/// Networks, grouped by prefix length, the longest first.
pub struct CidrMatcher {
    v4_buckets: Vec<(u8, FxHashSet<u32>)>,
    v6_buckets: Vec<(u8, FxHashSet<u128>)>,
}

/// What a number is masked to for each length of prefix.
spec fn masks_v4(value: u32) -> spec_fn(u8) -> u32 {
    |prefix: u8| masked_v4(value, prefix)
}

/// What a number is masked to for each length of prefix.
spec fn masks_v6(value: u128) -> spec_fn(u8) -> u128 {
    |prefix: u8| masked_v6(value, prefix)
}

/// Whether a table of networks by prefix length holds a masked number.
spec fn table_matches<N>(t: Map<u8, FxHashSet<N>>, masks: spec_fn(u8) -> N) -> bool {
    exists|p: u8| #[trigger] t.contains_key(p) && t[p]@.contains(masks(p))
}

/// Whether one of the buckets holds a masked number.
spec fn buckets_match<N>(b: Seq<(u8, FxHashSet<N>)>, masks: spec_fn(u8) -> N) -> bool {
    exists|i: int| 0 <= i < b.len() && (#[trigger] b[i]).1@.contains(masks(b[i].0))
}

/// Adds a network to a table of networks by prefix length.
fn add_network<N: Eq + Hash>(table: &mut FxHashMap<u8, FxHashSet<N>>, prefix: u8, net: N)
    requires
        obeys_key_model::<N>(),
    ensures
        final(table)@.dom() == old(table)@.dom().insert(prefix),
        forall|masks: spec_fn(u8) -> N| #[trigger]
            table_matches(final(table)@, masks) == (table_matches(old(table)@, masks) || masks(
                prefix,
            ) == net),
{
    let mut bucket = match map_remove(table, &prefix) {
        Some(bucket) => bucket,
        None => set_new(),
    };
    let _ = set_insert(&mut bucket, net);
    let _ = map_insert(table, prefix, bucket);
    proof {
        assert(table@.dom() =~= old(table)@.dom().insert(prefix));
        assert forall|masks: spec_fn(u8) -> N| #[trigger]
            table_matches(table@, masks) == (table_matches(old(table)@, masks) || masks(prefix)
                == net) by {
            if table_matches(table@, masks) {
                let p = choose|p: u8| #[trigger]
                    table@.contains_key(p) && table@[p]@.contains(masks(p));
                if p != prefix || old(table)@.contains_key(prefix) {
                    assert(old(table)@.contains_key(p));
                }
            }
            if table_matches(old(table)@, masks) {
                let p = choose|p: u8| #[trigger]
                    old(table)@.contains_key(p) && old(table)@[p]@.contains(masks(p));
                assert(table@.contains_key(p));
            }
            assert(table@.contains_key(prefix));
        }
    }
}

/// The buckets of a table, the longest prefix first.
fn buckets<N: Eq + Hash>(table: FxHashMap<u8, FxHashSet<N>>, longest: u8) -> (r: Vec<
    (u8, FxHashSet<N>),
>)
    requires
        longest < u8::MAX,
        forall|p: u8| table@.contains_key(p) ==> p <= longest,
    ensures
        forall|i: int| 0 <= i < r@.len() ==> r@[i].0 <= longest,
        forall|i: int, j: int| 0 <= i < j < r@.len() ==> r@[i].0 > r@[j].0,
        forall|masks: spec_fn(u8) -> N|
            buckets_match(r@, masks) == #[trigger] table_matches(table@, masks),
{
    let mut rest = table;
    let mut out: Vec<(u8, FxHashSet<N>)> = Vec::new();
    let mut p: u8 = longest + 1;
    while p > 0
        invariant
            forall|q: u8| #[trigger] table@.contains_key(q) ==> q <= longest,
            forall|q: u8|
                #[trigger] rest@.contains_key(q) <==> table@.contains_key(q) && q < p,
            forall|q: u8| #[trigger] rest@.contains_key(q) ==> rest@[q] == table@[q],
            p <= longest + 1,
            forall|i: int|
                0 <= i < out@.len() ==> p <= (#[trigger] out@[i]).0 <= longest
                    && table@.contains_key(out@[i].0) && table@[out@[i].0] == out@[i].1,
            forall|q: u8|
                p <= q && #[trigger] table@.contains_key(q) ==> exists|i: int|
                    0 <= i < out@.len() && (#[trigger] out@[i]).0 == q,
            forall|i: int, j: int| 0 <= i < j < out@.len() ==> out@[i].0 > out@[j].0,
        decreases p,
    {
        let ghost had = out@;
        let ghost was = p;
        p = p - 1;
        if let Some(bucket) = map_remove(&mut rest, &p) {
            out.push((p, bucket));
            assert(out@[had.len() as int].0 == p);
        }
        assert forall|q: u8| p <= q && #[trigger] table@.contains_key(q) implies exists|i: int|
            0 <= i < out@.len() && (#[trigger] out@[i]).0 == q by {
            if was <= q {
                let i = choose|i: int| 0 <= i < had.len() && (#[trigger] had[i]).0 == q;
                assert(out@[i].0 == q);
            }
        }
    }
    assert forall|masks: spec_fn(u8) -> N|
        buckets_match(out@, masks) == #[trigger] table_matches(table@, masks) by {
        if table_matches(table@, masks) {
            let q = choose|q: u8| #[trigger]
                table@.contains_key(q) && table@[q]@.contains(masks(q));
            let i = choose|i: int| 0 <= i < out@.len() && (#[trigger] out@[i]).0 == q;
            assert(out@[i].1@.contains(masks(out@[i].0)));
        }
    }
    out
}

impl CidrMatcher {
    /// Whether a key lies in one of the networks.
    pub closed spec fn matches(&self, key: IpKey) -> bool {
        match key {
            IpKey::V4(v) => buckets_match(self.v4_buckets@, masks_v4(v)),
            IpKey::V6(v) => buckets_match(self.v6_buckets@, masks_v6(v)),
        }
    }

    /// Prefix lengths are those that addresses can have, each once, in descending order.
    #[verifier::type_invariant]
    spec fn wf(&self) -> bool {
        &&& forall|i: int| 0 <= i < self.v4_buckets@.len() ==> self.v4_buckets@[i].0 <= 32
        &&& forall|i: int| 0 <= i < self.v6_buckets@.len() ==> self.v6_buckets@[i].0 <= 128
        &&& forall|i: int, j: int|
            0 <= i < j < self.v4_buckets@.len() ==> self.v4_buckets@[i].0 > self.v4_buckets@[j].0
        &&& forall|i: int, j: int|
            0 <= i < j < self.v6_buckets@.len() ==> self.v6_buckets@[i].0 > self.v6_buckets@[j].0
    }

    /// Groups networks by prefix length.
    pub fn new(cidrs: &[(IpAddr, u8)]) -> (r: Self)
        requires
            forall|i: int| 0 <= i < cidrs@.len() ==> valid_prefix(#[trigger] cidrs@[i].0, cidrs@[i].1),
        ensures
            forall|key: IpKey| #[trigger] r.matches(key) == in_networks(key, cidrs@),
    {
        let mut v4_map: FxHashMap<u8, FxHashSet<u32>> = map_new();
        let mut v6_map: FxHashMap<u8, FxHashSet<u128>> = map_new();
        for i in 0..cidrs.len()
            invariant
                forall|j: int|
                    0 <= j < cidrs@.len() ==> valid_prefix(#[trigger] cidrs@[j].0, cidrs@[j].1),
                forall|p: u8| v4_map@.contains_key(p) ==> p <= 32,
                forall|p: u8| v6_map@.contains_key(p) ==> p <= 128,
                forall|v: u32|
                    #[trigger] table_matches(v4_map@, masks_v4(v)) == in_networks(
                        IpKey::V4(v),
                        cidrs@.subrange(0, i as int),
                    ),
                forall|v: u128|
                    #[trigger] table_matches(v6_map@, masks_v6(v)) == in_networks(
                        IpKey::V6(v),
                        cidrs@.subrange(0, i as int),
                    ),
        {
            let (addr, prefix) = cidrs[i];
            assert(valid_prefix(cidrs@[i as int].0, cidrs@[i as int].1));
            match IpKey::from_ip(addr) {
                IpKey::V4(value) => {
                    let net = mask_v4(value, prefix);
                    add_network(&mut v4_map, prefix, net);
                },
                IpKey::V6(value) => {
                    let net = mask_v6(value, prefix);
                    add_network(&mut v6_map, prefix, net);
                },
            }
            proof {
                let upto = cidrs@.subrange(0, i + 1);
                assert forall|key: IpKey|
                    in_networks(key, upto) == (in_networks(key, cidrs@.subrange(0, i as int))
                        || in_network(key, key_of(addr), prefix)) by {
                    lemma_in_networks_push(key, cidrs@, i as int);
                }
            }
        }
        assert(cidrs@.subrange(0, cidrs@.len() as int) =~= cidrs@);
        let v4_buckets = buckets(v4_map, 32);
        let v6_buckets = buckets(v6_map, 128);
        let r = CidrMatcher { v4_buckets, v6_buckets };
        assert forall|key: IpKey| #[trigger] r.matches(key) == in_networks(key, cidrs@) by {
            match key {
                IpKey::V4(v) => {
                    assert(table_matches(v4_map@, masks_v4(v)) == in_networks(key, cidrs@));
                },
                IpKey::V6(v) => {
                    assert(table_matches(v6_map@, masks_v6(v)) == in_networks(key, cidrs@));
                },
            }
        }
        r
    }

    /// Whether an address lies in one of the networks.
    pub fn contains(&self, addr: IpAddr) -> (r: bool)
        ensures
            r == self.matches(key_of(addr)),
    {
        proof {
            use_type_invariant(self);
        }
        match IpKey::from_ip(addr) {
            IpKey::V4(value) => {
                for i in 0..self.v4_buckets.len()
                    invariant
                        forall|j: int|
                            0 <= j < self.v4_buckets@.len() ==> self.v4_buckets@[j].0 <= 32,
                        forall|j: int|
                            0 <= j < i ==> !(#[trigger] self.v4_buckets@[j]).1@.contains(
                                masked_v4(value, self.v4_buckets@[j].0),
                            ),
                        key_of(addr) == IpKey::V4(value),
                {
                    let masked: u32 = mask_v4(value, self.v4_buckets[i].0);
                    if set_contains(&self.v4_buckets[i].1, &masked) {
                        return true;
                    }
                }
                false
            },
            IpKey::V6(value) => {
                for i in 0..self.v6_buckets.len()
                    invariant
                        forall|j: int|
                            0 <= j < self.v6_buckets@.len() ==> self.v6_buckets@[j].0 <= 128,
                        forall|j: int|
                            0 <= j < i ==> !(#[trigger] self.v6_buckets@[j]).1@.contains(
                                masked_v6(value, self.v6_buckets@[j].0),
                            ),
                        key_of(addr) == IpKey::V6(value),
                {
                    let masked: u128 = mask_v6(value, self.v6_buckets[i].0);
                    if set_contains(&self.v6_buckets[i].1, &masked) {
                        return true;
                    }
                }
                false
            },
        }
    }
}

/// A key lies in the first `i + 1` networks if it lies in the first `i` or in the next.
proof fn lemma_in_networks_push(key: IpKey, cidrs: Seq<(IpAddr, u8)>, i: int)
    requires
        0 <= i < cidrs.len(),
    ensures
        in_networks(key, cidrs.subrange(0, i + 1)) == (in_networks(key, cidrs.subrange(0, i))
            || in_network(key, key_of(cidrs[i].0), cidrs[i].1)),
{
    let less = cidrs.subrange(0, i);
    let more = cidrs.subrange(0, i + 1);
    if in_networks(key, more) {
        let j = choose|j: int|
            0 <= j < more.len() && in_network(key, key_of(#[trigger] more[j].0), more[j].1);
        if j < i {
            assert(less[j] == more[j]);
            assert(in_network(key, key_of(less[j].0), less[j].1));
        }
    }
    if in_networks(key, less) {
        let j = choose|j: int|
            0 <= j < less.len() && in_network(key, key_of(#[trigger] less[j].0), less[j].1);
        assert(in_network(key, key_of(more[j].0), more[j].1));
    }
    if in_network(key, key_of(cidrs[i].0), cidrs[i].1) {
        assert(in_network(key, key_of(more[i].0), more[i].1));
    }
}

// ---------------------------------------------------------------------------
// Filters
// ---------------------------------------------------------------------------

/// Which addresses get no rule.
pub struct IgnoreFilters {
    pub ip_set: IpSet,
    pub cidr_matcher: CidrMatcher,
    pub flag_mask: u32,
}

/// Whether a key is one of the listed addresses or lies in one of the listed networks.
pub open spec fn listed(key: IpKey, ips: Seq<IpAddr>, cidrs: Seq<(IpAddr, u8)>) -> bool {
    ||| exists|i: int| 0 <= i < ips.len() && unmapped(key_of(#[trigger] ips[i])) == key
    ||| in_networks(key, cidrs)
}

impl IgnoreFilters {
    /// Whether a key is left out.
    pub open spec fn ignores(&self, key: IpKey) -> bool {
        self.ip_set@.contains(key) || self.cidr_matcher.matches(key)
    }

    /// The filters that leave out the listed addresses, networks and flags.
    pub fn new(ignore_ips: &[IpAddr], ignore_cidrs: &[(IpAddr, u8)], flag_mask: u32) -> (r: Self)
        requires
            forall|i: int|
                0 <= i < ignore_cidrs@.len() ==> valid_prefix(
                    #[trigger] ignore_cidrs@[i].0,
                    ignore_cidrs@[i].1,
                ),
        ensures
            forall|key: IpKey|
                #[trigger] r.ignores(key) == listed(key, ignore_ips@, ignore_cidrs@),
            r.flag_mask == flag_mask,
    {
        let mut ip_set = IpSet::new();
        for i in 0..ignore_ips.len()
            invariant
                forall|key: IpKey|
                    ip_set@.contains(key) <==> exists|j: int|
                        0 <= j < i && unmapped(key_of(#[trigger] ignore_ips@[j])) == key,
        {
            let ghost before = ip_set@;
            let addr = unmap_addr(ignore_ips[i]);
            let key = IpKey::from_ip(addr);
            let _ = ip_set.insert(key);
            assert(unmapped(key_of(ignore_ips@[i as int])) == key);
        }
        IgnoreFilters { ip_set, cidr_matcher: CidrMatcher::new(ignore_cidrs), flag_mask }
    }

    /// Whether an address is left out.
    pub fn should_ignore_addr(&self, addr: IpAddr) -> (r: bool)
        ensures
            r == self.ignores(unmapped(key_of(addr))),
    {
        let addr = unmap_addr(addr);
        if self.ip_set.contains(&IpKey::from_ip(addr)) {
            return true;
        }
        self.cidr_matcher.contains(addr)
    }
}

// ---------------------------------------------------------------------------
// Announcements
// ---------------------------------------------------------------------------

/// An address that was announced.
#[derive(Debug, Clone, Copy)]
pub struct AddrEvent {
    pub op: RuleOp,
    pub family: u8,
    pub ifindex: i32,
    pub flags: u32,
}

/// An `AddrEvent` with its address as a key.
pub struct AddrEventView {
    pub key: IpKey,
    pub action: RuleAction,
    pub family: u8,
    pub ifindex: i32,
    pub flags: u32,
}

impl View for AddrEvent {
    type V = AddrEventView;

    open spec fn view(&self) -> AddrEventView {
        AddrEventView {
            key: key_of(self.op.addr),
            action: self.op.action,
            family: self.family,
            ifindex: self.ifindex,
            flags: self.flags,
        }
    }
}

/// What the attributes of an address message say so far: the flags, all ones where there were
/// none, and the address.
pub struct IfAddrAttrs {
    pub flags: u32,
    pub addr: Option<Seq<u8>>,
    pub error: Option<ErrorView>,
}

/// Whether an attribute holds the address: the local one for IPv4 where it is there.
pub open spec fn takes_addr(family: u8, typ: u16, have: bool) -> bool {
    ||| typ == IFA_LOCAL && family == AF_INET
    ||| typ == IFA_ADDRESS && (family != AF_INET || !have)
}

/// What the attributes say, up to the first address of a length that no address has.
pub open spec fn ifaddr_attrs(order: ByteOrder, family: u8, attrs: Seq<Nla>) -> IfAddrAttrs
    decreases attrs.len(),
{
    if attrs.len() == 0 {
        IfAddrAttrs { flags: u32::MAX, addr: None, error: None }
    } else {
        let before = ifaddr_attrs(order, family, attrs.drop_last());
        let a = attrs.last();
        if before.error is Some {
            before
        } else if a.typ == IFA_ATTR_FLAGS {
            if a.value.len() >= 4 {
                IfAddrAttrs { flags: u32_at(order, a.value, 0), ..before }
            } else {
                before
            }
        } else if takes_addr(family, a.typ, before.addr is Some) {
            if 1 <= a.value.len() <= 16 {
                IfAddrAttrs { addr: Some(a.value), ..before }
            } else {
                IfAddrAttrs {
                    error: Some(ErrorView::Netlink("ifaddr invalid IFA_ADDRESS length"@)),
                    ..before
                }
            }
        } else {
            before
        }
    }
}

/// The flags and the raw address of an address message, or the error that reading it ends with.
pub open spec fn ifaddr(order: ByteOrder, raw: Seq<u8>, family: u8) -> Result<
    (u32, Seq<u8>),
    ErrorView,
> {
    let got = ifaddr_attrs(order, family, nlas(order, raw));
    match (got.error, nlas_error(order, raw), got.addr) {
        (Some(e), _, _) => Err(e),
        (None, Some(e), _) => Err(e),
        (None, None, None) => Err(ErrorView::Netlink("ifaddr missing IFA_ADDRESS"@)),
        (None, None, Some(addr)) => Ok((got.flags, addr)),
    }
}

/// An error among the first attributes ends the reading of them all.
proof fn lemma_ifaddr_error(order: ByteOrder, family: u8, attrs: Seq<Nla>, n: int)
    requires
        0 <= n <= attrs.len(),
        ifaddr_attrs(order, family, attrs.subrange(0, n)).error is Some,
    ensures
        ifaddr_attrs(order, family, attrs) == ifaddr_attrs(order, family, attrs.subrange(0, n)),
    decreases attrs.len() - n,
{
    if n == attrs.len() {
        assert(attrs.subrange(0, n) =~= attrs);
    } else {
        assert(attrs.subrange(0, n + 1).drop_last() =~= attrs.subrange(0, n));
        lemma_ifaddr_error(order, family, attrs, n + 1);
    }
}

/// The view of an optional raw address.
pub open spec fn raw_view(a: Option<RawAddrBuf>) -> Option<Seq<u8>> {
    match a {
        Some(a) => Some(a@),
        None => None,
    }
}

/// Reads the attributes of an address message.
pub fn parse_ifaddr_attrs(order: ByteOrder, raw: &[u8], family: u8) -> (r: Result<
    (u32, RawAddrBuf),
    AppError,
>)
    ensures
        match r {
            Ok((flags, addr)) => ifaddr(order, raw@, family) == Ok::<(u32, Seq<u8>), ErrorView>(
                (flags, addr@),
            ),
            Err(e) => ifaddr(order, raw@, family) == Err::<(u32, Seq<u8>), ErrorView>(e@),
        },
{
    let list = parse_nlas(order, raw);
    let attrs = list.attrs;
    let ghost all = nla_views(attrs@);
    let mut flags: u32 = u32::MAX;
    let mut addr: Option<RawAddrBuf> = None;
    assert(all.subrange(0, 0) =~= Seq::<Nla>::empty());
    for i in 0..attrs.len()
        invariant
            all == nla_views(attrs@),
            all == nlas(order, raw@),
            ifaddr_attrs(order, family, all.subrange(0, i as int)) == (IfAddrAttrs {
                flags,
                addr: raw_view(addr),
                error: None,
            }),
    {
        let a: NlaView<'_> = attrs[i];
        let ghost upto = all.subrange(0, i + 1);
        proof {
            assert(upto.drop_last() =~= all.subrange(0, i as int));
            assert(upto.last() == a@);
        }
        if a.typ == IFA_ATTR_FLAGS {
            if a.value.len() >= 4 {
                flags = read_u32(order, a.value, 0);
            }
        } else if (a.typ == IFA_LOCAL && family as i32 == AF_INET) || (a.typ == IFA_ADDRESS && (
        family as i32 != AF_INET || addr.is_none())) {
            match RawAddrBuf::from_slice(a.value, "ifaddr invalid IFA_ADDRESS length") {
                Ok(buf) => {
                    addr = Some(buf);
                },
                Err(e) => {
                    proof {
                        lemma_ifaddr_error(order, family, all, i + 1);
                    }
                    return Err(e);
                },
            }
        }
    }
    assert(all.subrange(0, all.len() as int) =~= all);
    if let Some(e) = list.error {
        return Err(e);
    }
    match addr {
        Some(addr) => Ok((flags, addr)),
        None => Err(AppError::netlink("ifaddr missing IFA_ADDRESS")),
    }
}

/// The address of a message that gets a rule, with the flags in force: those of the attributes,
/// or those of the body where there were none.
pub open spec fn eligible(
    ifa: IfAddrMsg,
    attr_flags: u32,
    raw: Seq<u8>,
    ipv6_enabled: bool,
    filters: &IgnoreFilters,
) -> Option<(IpKey, u32)> {
    let flags = if attr_flags == u32::MAX {
        ifa.ifa_flags as u32
    } else {
        attr_flags
    };
    match raw_key(ifa.ifa_family, raw) {
        Some(k) => {
            let key = unmapped(k);
            if ifa.ifa_scope != 0 || (ifa.ifa_family == AF_INET6 && !ipv6_enabled) || (
            filters.flag_mask != 0 && flags & filters.flag_mask != 0) || !valid_key(key)
                || filters.ignores(key) {
                None
            } else {
                Some((key, flags))
            }
        },
        None => None,
    }
}

/// The address of a message that gets a rule.
pub fn parse_addr_from_ifaddr(
    ifa: IfAddrMsg,
    flags: u32,
    raw_addr: &RawAddrBuf,
    ipv6_enabled: bool,
    filters: &IgnoreFilters,
) -> (r: Option<(IpAddr, u32)>)
    ensures
        match r {
            Some((addr, f)) => eligible(ifa, flags, raw_addr@, ipv6_enabled, filters) == Some(
                (key_of(addr), f),
            ),
            None => eligible(ifa, flags, raw_addr@, ipv6_enabled, filters) is None,
        },
{
    if ifa.ifa_scope != 0 {
        return None;
    }
    if ifa.ifa_family as i32 == AF_INET6 && !ipv6_enabled {
        return None;
    }
    let flags: u32 = if flags == u32::MAX {
        ifa.ifa_flags as u32
    } else {
        flags
    };
    if filters.flag_mask != 0 && (flags & filters.flag_mask) != 0 {
        return None;
    }
    let addr = match addr_from_netlink(ifa.ifa_family, raw_addr.as_slice()) {
        Some(addr) => unmap_addr(addr),
        None => return None,
    };
    if !is_valid_addr(addr) {
        return None;
    }
    proof {
        unmapped_is_idempotent(key_of(addr));
    }
    if filters.should_ignore_addr(addr) {
        return None;
    }
    Some((addr, flags))
}

/// The body of an address message and the address in it that gets a rule, or the error that
/// reading it ends with. Too short a message has none.
pub open spec fn addr_of_message(
    order: ByteOrder,
    data: Seq<u8>,
    ipv6_enabled: bool,
    filters: &IgnoreFilters,
) -> Result<Option<(IpKey, u32)>, ErrorView> {
    if data.len() < IFADDRMSG_LEN {
        Ok(None)
    } else {
        let ifa = ifaddrmsg_at(order, data);
        match ifaddr(order, data.subrange(IFADDRMSG_LEN as int, data.len() as int), ifa.ifa_family) {
            Err(e) => Err(e),
            Ok((flags, raw)) => Ok(eligible(ifa, flags, raw, ipv6_enabled, filters)),
        }
    }
}

/// What an address message announces.
pub open spec fn addr_event(
    order: ByteOrder,
    m: Message,
    ipv6_enabled: bool,
    filters: &IgnoreFilters,
) -> Result<Option<AddrEventView>, ErrorView> {
    match addr_of_message(order, m.data, ipv6_enabled, filters) {
        Err(e) => Err(e),
        Ok(None) => Ok(None),
        Ok(Some((key, flags))) => {
            let ifa = ifaddrmsg_at(order, m.data);
            Ok(
                Some(
                    AddrEventView {
                        key,
                        action: if m.header.nlmsg_type == RTM_DELADDR {
                            RuleAction::Delete
                        } else {
                            RuleAction::Add
                        },
                        family: ifa.ifa_family,
                        ifindex: if ifa.ifa_index <= i32::MAX {
                            ifa.ifa_index as i32
                        } else {
                            i32::MAX
                        },
                        flags,
                    },
                ),
            )
        },
    }
}

/// Reads what an address message announces; `None` where the address gets no rule.
pub fn parse_addr_event(
    order: ByteOrder,
    msg: NetlinkMessageView<'_>,
    ipv6_enabled: bool,
    filters: &IgnoreFilters,
) -> (r: Result<Option<AddrEvent>, AppError>)
    ensures
        match r {
            Ok(Some(e)) => addr_event(order, msg@, ipv6_enabled, filters) == Ok::<
                Option<AddrEventView>,
                ErrorView,
            >(Some(e@)),
            Ok(None) => addr_event(order, msg@, ipv6_enabled, filters) == Ok::<
                Option<AddrEventView>,
                ErrorView,
            >(None),
            Err(e) => addr_event(order, msg@, ipv6_enabled, filters) == Err::<
                Option<AddrEventView>,
                ErrorView,
            >(e@),
        },
{
    let ifa = match read_ifaddrmsg(order, msg.data) {
        Some(ifa) => ifa,
        None => return Ok(None),
    };
    let attrs = slice_subrange(msg.data, IFADDRMSG_LEN, msg.data.len());
    let (flags, raw) = match parse_ifaddr_attrs(order, attrs, ifa.ifa_family) {
        Ok(got) => got,
        Err(e) => return Err(e),
    };
    let (addr, flags) = match parse_addr_from_ifaddr(ifa, flags, &raw, ipv6_enabled, filters) {
        Some(got) => got,
        None => return Ok(None),
    };
    let action = if msg.header.nlmsg_type == RTM_DELADDR {
        RuleAction::Delete
    } else {
        RuleAction::Add
    };
    let ifindex: i32 = if ifa.ifa_index <= 0x7FFF_FFFF {
        ifa.ifa_index as i32
    } else {
        i32::MAX
    };
    Ok(Some(AddrEvent { op: RuleOp { addr, action }, family: ifa.ifa_family, ifindex, flags }))
}

/// Whatever a message announces may have a rule: the address is valid, is not left out by the
/// filters, and is not an IPv4-mapped one.
pub proof fn announced_address_is_eligible(
    order: ByteOrder,
    m: Message,
    ipv6_enabled: bool,
    filters: &IgnoreFilters,
)
    ensures
        addr_event(order, m, ipv6_enabled, filters) matches Ok(Some(e)) ==> valid_key(e.key)
            && !filters.ignores(e.key) && unmapped(e.key) == e.key && (filters.flag_mask == 0
            || e.flags & filters.flag_mask == 0),
{
}

// ---------------------------------------------------------------------------
// Dumps
// ---------------------------------------------------------------------------

/// The request for all addresses of a family.
pub open spec fn addr_dump_message(order: ByteOrder, family: u8, seq: u32) -> Seq<u8> {
    request_bytes(
        order,
        RTM_GETADDR,
        NLM_F_REQUEST | NLM_F_DUMP,
        seq,
        ifaddrmsg_bytes(
            order,
            IfAddrMsg {
                ifa_family: family,
                ifa_prefixlen: 0,
                ifa_flags: 0,
                ifa_scope: 0,
                ifa_index: 0,
            },
        ),
    )
}

/// Builds the request for all addresses of a family.
pub fn build_addr_dump_message(order: ByteOrder, family: u8, seq: u32) -> (r: Vec<u8>)
    ensures
        r@ == addr_dump_message(order, family, seq),
{
    let ifa = IfAddrMsg {
        ifa_family: family,
        ifa_prefixlen: 0,
        ifa_flags: 0,
        ifa_scope: 0,
        ifa_index: 0,
    };
    let mut body: Vec<u8> = Vec::new();
    push_ifaddrmsg(order, &mut body, ifa);
    assert(body@ =~= ifaddrmsg_bytes(order, ifa));
    build_netlink_request(order, RTM_GETADDR, NLM_F_REQUEST | NLM_F_DUMP, seq, body.as_slice())
}

/// The address in a message of a dump that gets a rule. Messages that cannot be read have none.
pub open spec fn dumped_key(
    order: ByteOrder,
    m: Message,
    ipv6_enabled: bool,
    filters: &IgnoreFilters,
) -> Option<IpKey> {
    if m.header.nlmsg_type != RTM_NEWADDR {
        None
    } else {
        match addr_of_message(order, m.data, ipv6_enabled, filters) {
            Ok(Some((key, _))) => Some(key),
            _ => None,
        }
    }
}

/// The addresses in the messages of a dump that get a rule, in order.
pub open spec fn dumped_keys(
    order: ByteOrder,
    messages: Seq<Message>,
    ipv6_enabled: bool,
    filters: &IgnoreFilters,
) -> Seq<IpKey>
    decreases messages.len(),
{
    if messages.len() == 0 {
        Seq::empty()
    } else {
        let before = dumped_keys(order, messages.drop_last(), ipv6_enabled, filters);
        match dumped_key(order, messages.last(), ipv6_enabled, filters) {
            Some(key) => before.push(key),
            None => before,
        }
    }
}

/// Appends the addresses in the messages of a dump that get a rule.
pub fn collect_dumped_keys(
    order: ByteOrder,
    messages: &[NetlinkMessageView<'_>],
    ipv6_enabled: bool,
    filters: &IgnoreFilters,
    out: &mut Vec<IpKey>,
)
    ensures
        final(out)@ == old(out)@ + dumped_keys(
            order,
            message_views(messages@),
            ipv6_enabled,
            filters,
        ),
{
    let ghost all = message_views(messages@);
    assert(all.subrange(0, 0) =~= Seq::<Message>::empty());
    assert(out@ =~= old(out)@ + dumped_keys(order, all.subrange(0, 0), ipv6_enabled, filters));
    for i in 0..messages.len()
        invariant
            all == message_views(messages@),
            out@ == old(out)@ + dumped_keys(
                order,
                all.subrange(0, i as int),
                ipv6_enabled,
                filters,
            ),
    {
        let msg = messages[i];
        let ghost before = out@;
        proof {
            assert(all.subrange(0, i + 1).drop_last() =~= all.subrange(0, i as int));
            assert(all.subrange(0, i + 1).last() == msg@);
        }
        if msg.header.nlmsg_type == RTM_NEWADDR {
            if let Ok(Some(event)) = parse_addr_event(order, msg, ipv6_enabled, filters) {
                out.push(IpKey::from_ip(event.op.addr));
            }
        }
        assert(out@ =~= old(out)@ + dumped_keys(
            order,
            all.subrange(0, i + 1),
            ipv6_enabled,
            filters,
        ));
    }
    assert(all.subrange(0, all.len() as int) =~= all);
}

/// The families that a snapshot asks for, in order.
pub fn snapshot_families(ipv6_enabled: bool) -> (r: Vec<u8>)
    ensures
        r@ == (if ipv6_enabled {
            seq![AF_INET as u8, AF_INET6 as u8]
        } else {
            seq![AF_INET as u8]
        }),
        r@[0] == 2,
        r@.contains(10u8) <==> ipv6_enabled,
{
    let mut r: Vec<u8> = Vec::new();
    r.push(2);
    if ipv6_enabled {
        r.push(10);
    }
    assert(r@ =~= if ipv6_enabled {
        seq![AF_INET as u8, AF_INET6 as u8]
    } else {
        seq![AF_INET as u8]
    });
    r
}

/// The snapshot: the addresses that were dumped, in ascending order, each once.
pub fn finish_snapshot(keys: &mut Vec<IpKey>)
    ensures
        final(keys)@ == sorted(old(keys)@.to_set()),
        ascending(final(keys)@),
        final(keys)@.to_set() == old(keys)@.to_set(),
{
    sort_dedup(keys);
}

} // verus!
