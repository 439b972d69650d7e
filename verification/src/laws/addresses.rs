//! Which addresses get a rule, stated on their octets and on the bytes of an announcement.
use crate::bytes::{u32_at, u32_bytes, ByteOrder};
use crate::error::ErrorView;
use crate::ip_key::{be128, be32, key_of, octets, IpAddr, IpKey};
use crate::laws::wire::lemma_number_alone;
use crate::netlink::addr::{
    addr_event, dumped_key, dumped_keys, ifaddr, ifaddr_attrs, in_network, listed,
    mask_v4_compares_prefix, mask_v6_compares_prefix, unmapped, valid_key, AddrEventView,
    IgnoreFilters,
};
use crate::netlink::codec::{nla_bytes, nla_reads_back, nlas, nlas_error, Message, Nla};
use crate::netlink::linux_types::{ifaddrmsg_bytes, ifaddrmsg_reads_back, IfAddrMsg};
use crate::netlink::rule::{raw_key, RuleAction};
use vstd::prelude::*;

verus! {

// ---------------------------------------------------------------------------
// Addresses
// ---------------------------------------------------------------------------

/// Whether an address is unspecified, loopback or link-local: `0.0.0.0`, `127.0.0.0/8`,
/// `169.254.0.0/16`, `::`, `::1` or `fe80::/10`.
pub open spec fn is_special(addr: IpAddr) -> bool {
    let o = octets(addr);
    match addr {
        IpAddr::V4(_) => {
            ||| forall|i: int| 0 <= i < 4 ==> o[i] == 0
            ||| o[0] == 127
            ||| o[0] == 169 && o[1] == 254
        },
        IpAddr::V6(_) => {
            ||| (forall|i: int| 0 <= i < 15 ==> o[i] == 0) && o[15] <= 1
            ||| o[0] == 0xFE && 0x80 <= o[1] <= 0xBF
        },
    }
}

/// The number of an address is made up of its octets, the first of which weighs most.
#[verifier::rlimit(40)]
proof fn lemma_key_of_octets(o: Seq<u8>)
    requires
        o.len() == 16,
    ensures
        ({
            let v = be128(o);
            &&& 0 <= v <= u128::MAX
            &&& v / 0x40_0000_0000_0000_0000_0000_0000_0000 == o[0] * 4 + o[1] / 64
            &&& v / 0x1_0000_0000 == 0xFFFF <==> (forall|i: int| 0 <= i < 10 ==> o[i] == 0) && o[10]
                == 255 && o[11] == 255
            &&& v % 0x1_0000_0000 == be32(o, 12)
            &&& v <= 1 <==> (forall|i: int| 0 <= i < 15 ==> o[i] == 0) && o[15] <= 1
        }),
{
    let a = be32(o, 0);
    let b = be32(o, 4);
    let c = be32(o, 8);
    let d = be32(o, 12);
    let v = be128(o);
    assert(0 <= a <= 0xFFFF_FFFF && 0 <= b <= 0xFFFF_FFFF && 0 <= c <= 0xFFFF_FFFF && 0 <= d
        <= 0xFFFF_FFFF);
    let hi = a * 0x1_0000_0000_0000_0000 + b * 0x1_0000_0000 + c;
    assert(v == hi * 0x1_0000_0000 + d);
    assert(v / 0x1_0000_0000 == hi);
    assert(v % 0x1_0000_0000 == d);
    assert(a / 0x40_0000 == o[0] * 4 + o[1] / 64);
    let low = b * 0x1_0000_0000_0000_0000 + c * 0x1_0000_0000 + d;
    assert(v == a * 0x1_0000_0000_0000_0000_0000_0000 + low);
    assert(0 <= low < 0x1_0000_0000_0000_0000_0000_0000);
    let q = a / 0x40_0000;
    let r = a % 0x40_0000;
    assert(a == q * 0x40_0000 + r);
    assert(v == q * 0x40_0000_0000_0000_0000_0000_0000_0000 + (r
        * 0x1_0000_0000_0000_0000_0000_0000 + low));
    if hi == 0xFFFF {
        assert(a == 0 && b == 0 && c == 0xFFFF);
        assert(o[0] == 0 && o[1] == 0 && o[2] == 0 && o[3] == 0);
        assert(o[4] == 0 && o[5] == 0 && o[6] == 0 && o[7] == 0);
        assert(o[8] == 0 && o[9] == 0);
    }
    if (forall|i: int| 0 <= i < 10 ==> o[i] == 0) && o[10] == 255 && o[11] == 255 {
        assert(a == 0 && b == 0 && c == 0xFFFF);
    }
    if v <= 1 {
        assert(a == 0 && b == 0 && c == 0 && d <= 1);
        assert(o[0] == 0 && o[1] == 0 && o[2] == 0 && o[3] == 0);
        assert(o[4] == 0 && o[5] == 0 && o[6] == 0 && o[7] == 0);
        assert(o[8] == 0 && o[9] == 0 && o[10] == 0 && o[11] == 0);
        assert(o[12] == 0 && o[13] == 0 && o[14] == 0);
    }
    if (forall|i: int| 0 <= i < 15 ==> o[i] == 0) && o[15] <= 1 {
        assert(a == 0 && b == 0 && c == 0 && d == o[15]);
    }
}

/// An address may have a rule if and only if it is neither unspecified, nor loopback, nor
/// link-local.
pub proof fn special_addresses_get_no_rule(addr: IpAddr)
    ensures
        valid_key(key_of(addr)) <==> !is_special(addr),
{
    match addr {
        IpAddr::V4(o) => {
            let s = o@;
            let v = be32(s, 0);
            assert(0 <= v <= u32::MAX);
            assert(v / 0x100_0000 == s[0]);
            assert(v / 0x1_0000 == s[0] * 256 + s[1]);
            assert(octets(addr) == s);
            if v == 0 {
                assert(s[0] == 0 && s[1] == 0 && s[2] == 0 && s[3] == 0);
                assert(forall|i: int| 0 <= i < 4 ==> s[i] == 0);
            }
            if forall|i: int| 0 <= i < 4 ==> s[i] == 0 {
                assert(s[0] == 0 && s[1] == 0 && s[2] == 0 && s[3] == 0);
            }
        },
        IpAddr::V6(o) => {
            lemma_key_of_octets(o@);
            assert(octets(addr) == o@);
        },
    }
}

/// An IPv6 address stands for an IPv4 address if and only if it is ten zero octets, two octets of
/// ones, and the IPv4 address; every other address stands for itself.
#[verifier::rlimit(40)]
pub proof fn mapped_addresses_are_unmapped(addr: IpAddr, four: IpAddr)
    requires
        four is V4,
    ensures
        addr is V4 ==> unmapped(key_of(addr)) == key_of(addr),
        addr is V6 ==> (unmapped(key_of(addr)) == key_of(four) <==> (forall|i: int|
            0 <= i < 10 ==> octets(addr)[i] == 0) && octets(addr)[10] == 255 && octets(addr)[11]
            == 255 && octets(addr).subrange(12, 16) == octets(four)),
        addr is V6 && !((forall|i: int| 0 <= i < 10 ==> octets(addr)[i] == 0) && octets(addr)[10]
            == 255 && octets(addr)[11] == 255) ==> unmapped(key_of(addr)) == key_of(addr),
{
    if let IpAddr::V6(o) = addr {
        lemma_key_of_octets(o@);
        if let IpAddr::V4(f) = four {
            assert(0 <= be32(o@, 12) <= u32::MAX);
            assert(0 <= be32(f@, 0) <= u32::MAX);
            if be32(o@, 12) == be32(f@, 0) {
                assert(o@[12] == f@[0] && o@[13] == f@[1] && o@[14] == f@[2] && o@[15] == f@[3]);
                assert(o@.subrange(12, 16) =~= f@);
            }
            if o@.subrange(12, 16) == f@ {
                assert(o@.subrange(12, 16)[0] == o@[12] && o@.subrange(12, 16)[1] == o@[13]);
                assert(o@.subrange(12, 16)[2] == o@[14] && o@.subrange(12, 16)[3] == o@[15]);
            }
        }
    }
}

// ---------------------------------------------------------------------------
// Networks
// ---------------------------------------------------------------------------

/// A network holds the addresses of its family that agree with it in the first bits, as many as
/// its prefix says, and no other: all of them where the prefix is zero, and only itself where the
/// prefix is whole.
pub proof fn network_holds_its_prefix(a: u32, b: u32, c: u128, d: u128, p: u8, q: u8)
    requires
        0 < p <= 32,
        0 < q <= 128,
    ensures
        in_network(IpKey::V4(a), IpKey::V4(b), p) <==> a >> ((32 - p) as u32) == b >> ((32
            - p) as u32),
        in_network(IpKey::V6(c), IpKey::V6(d), q) <==> c >> ((128 - q) as u32) == d >> ((128
            - q) as u32),
        in_network(IpKey::V4(a), IpKey::V4(b), 0),
        in_network(IpKey::V6(c), IpKey::V6(d), 0),
        !in_network(IpKey::V4(a), IpKey::V6(d), q),
        !in_network(IpKey::V6(c), IpKey::V4(b), p),
        in_network(IpKey::V4(a), IpKey::V4(b), 32) <==> a == b,
        in_network(IpKey::V6(c), IpKey::V6(d), 128) <==> c == d,
{
    mask_v4_compares_prefix(a, b, p);
    mask_v6_compares_prefix(c, d, q);
    mask_v4_compares_prefix(a, b, 32);
    mask_v6_compares_prefix(c, d, 128);
    assert(a >> 0u32 == a) by (bit_vector);
    assert(b >> 0u32 == b) by (bit_vector);
    assert(c >> 0u32 == c) by (bit_vector);
    assert(d >> 0u32 == d) by (bit_vector);
}

/// A listed address is ignored under the number that it stands for, and so is every address in a
/// listed network; with nothing listed, nothing is ignored.
pub proof fn listed_addresses_are_ignored(
    key: IpKey,
    ips: Seq<IpAddr>,
    cidrs: Seq<(IpAddr, u8)>,
    i: int,
)
    ensures
        0 <= i < ips.len() ==> listed(unmapped(key_of(ips[i])), ips, cidrs),
        0 <= i < cidrs.len() && in_network(key, key_of(cidrs[i].0), cidrs[i].1) ==> listed(
            key,
            ips,
            cidrs,
        ),
        listed(key, ips, cidrs) ==> (exists|j: int|
            0 <= j < ips.len() && unmapped(key_of(#[trigger] ips[j])) == key) || (exists|j: int|
            0 <= j < cidrs.len() && in_network(key, key_of((#[trigger] cidrs[j]).0), cidrs[j].1)),
        !listed(key, Seq::empty(), Seq::empty()),
{
    if listed(key, ips, cidrs) {
        if !(exists|j: int| 0 <= j < ips.len() && unmapped(key_of(#[trigger] ips[j])) == key) {
            let j = choose|j: int|
                0 <= j < cidrs.len() && in_network(key, key_of(#[trigger] cidrs[j].0), cidrs[j].1);
            assert(in_network(key, key_of((cidrs[j]).0), cidrs[j].1));
        }
    }
}

// ---------------------------------------------------------------------------
// Announcements
// ---------------------------------------------------------------------------

/// The body of an announcement: what it says of the address, and its attributes.
pub open spec fn announcement(order: ByteOrder, ifa: IfAddrMsg, attrs: Seq<u8>) -> Seq<u8> {
    ifaddrmsg_bytes(order, ifa) + attrs
}

/// The number of an address's family.
pub open spec fn family_of(addr: IpAddr) -> u8 {
    if addr is V4 {
        2
    } else {
        10
    }
}

/// Whether an address gets a rule: it has global scope, is of a family that is in use, has none of
/// the flags to ignore, is not special, and is not ignored. `known` is the address that it stands
/// for.
pub open spec fn gets_rule(
    ifa: IfAddrMsg,
    flags: u32,
    known: IpAddr,
    ipv6_enabled: bool,
    filters: &IgnoreFilters,
) -> bool {
    &&& ifa.ifa_scope == 0
    &&& ifa.ifa_family == 10 ==> ipv6_enabled
    &&& flags & filters.flag_mask == 0
    &&& !is_special(known)
    &&& !filters.ignores(key_of(known))
}

/// What the announcement of an address comes to.
pub open spec fn expected(
    nlmsg_type: u16,
    ifa: IfAddrMsg,
    flags: u32,
    known: IpAddr,
    ipv6_enabled: bool,
    filters: &IgnoreFilters,
) -> Option<AddrEventView> {
    if gets_rule(ifa, flags, known, ipv6_enabled, filters) {
        Some(
            AddrEventView {
                key: key_of(known),
                action: if nlmsg_type == 20 {
                    RuleAction::Add
                } else {
                    RuleAction::Delete
                },
                family: ifa.ifa_family,
                ifindex: if ifa.ifa_index < 0x8000_0000 {
                    ifa.ifa_index as i32
                } else {
                    0x7FFF_FFFF
                },
                flags,
            },
        )
    } else {
        None
    }
}

/// The octets of an address, with its family, are read as the address.
proof fn lemma_raw_key(addr: IpAddr)
    ensures
        raw_key(family_of(addr), octets(addr)) == Some(key_of(addr)),
{
}

/// What the attributes of an announcement come to once they are known.
#[verifier::rlimit(40)]
proof fn lemma_event(
    order: ByteOrder,
    m: Message,
    ifa: IfAddrMsg,
    attrs: Seq<u8>,
    flags: u32,
    addr: IpAddr,
    known: IpAddr,
    ipv6_enabled: bool,
    filters: &IgnoreFilters,
)
    requires
        m.data == announcement(order, ifa, attrs),
        m.header.nlmsg_type == 20 || m.header.nlmsg_type == 21,
        ifa.ifa_family == family_of(addr),
        key_of(known) == unmapped(key_of(addr)),
        ifaddr(order, attrs, ifa.ifa_family) == Ok::<
            (u32, Seq<u8>),
            ErrorView,
        >((flags, octets(addr))),
    ensures
        addr_event(order, m, ipv6_enabled, filters) == Ok::<Option<AddrEventView>, ErrorView>(
            expected(
                m.header.nlmsg_type,
                ifa,
                if flags == u32::MAX {
                    ifa.ifa_flags as u32
                } else {
                    flags
                },
                known,
                ipv6_enabled,
                filters,
            ),
        ),
{
    ifaddrmsg_reads_back(order, ifa, attrs);
    let data = m.data;
    assert(data.subrange(8, data.len() as int) =~= attrs);
    lemma_raw_key(addr);
    special_addresses_get_no_rule(known);
    let f = if flags == u32::MAX {
        ifa.ifa_flags as u32
    } else {
        flags
    };
    let mask = filters.flag_mask;
    if mask == 0 {
        assert(f & mask == 0) by (bit_vector)
            requires
                mask == 0,
        ;
    }
}

/// An announcement with the address alone: the address is announced if and only if it gets a rule,
/// to be added where the announcement is of a new address and deleted where it is of one that is
/// gone, under the address that it stands for and with the flags of the message.
pub proof fn announced_address_gets_its_rule(
    order: ByteOrder,
    m: Message,
    ifa: IfAddrMsg,
    addr: IpAddr,
    known: IpAddr,
    ipv6_enabled: bool,
    filters: &IgnoreFilters,
)
    requires
        m.data == announcement(order, ifa, nla_bytes(order, 1, octets(addr))),
        m.header.nlmsg_type == 20 || m.header.nlmsg_type == 21,
        ifa.ifa_family == family_of(addr),
        key_of(known) == unmapped(key_of(addr)),
    ensures
        addr_event(order, m, ipv6_enabled, filters) == Ok::<Option<AddrEventView>, ErrorView>(
            expected(
                m.header.nlmsg_type,
                ifa,
                ifa.ifa_flags as u32,
                known,
                ipv6_enabled,
                filters,
            ),
        ),
        dumped_key(order, m, ipv6_enabled, filters) == (if m.header.nlmsg_type == 20 && gets_rule(
            ifa,
            ifa.ifa_flags as u32,
            known,
            ipv6_enabled,
            filters,
        ) {
            Some(key_of(known))
        } else {
            None
        }),
{
    let attrs = nla_bytes(order, 1, octets(addr));
    lemma_one_attr(order, Nla { typ: 1, value: octets(addr) });
    lemma_read_one(order, ifa.ifa_family, Nla { typ: 1, value: octets(addr) });
    lemma_event(order, m, ifa, attrs, u32::MAX, addr, known, ipv6_enabled, filters);
}

/// The bytes of one attribute hold that attribute.
proof fn lemma_one_attr(order: ByteOrder, a: Nla)
    requires
        a.value.len() <= 16,
    ensures
        nlas(order, nla_bytes(order, a.typ, a.value)) == seq![a],
        nlas_error(order, nla_bytes(order, a.typ, a.value)) is None,
{
    let none = Seq::<u8>::empty();
    nla_reads_back(order, a.typ, a.value, none);
    assert(nla_bytes(order, a.typ, a.value) + none =~= nla_bytes(order, a.typ, a.value));
    assert(nlas(order, none) =~= Seq::<Nla>::empty());
    assert(seq![a] + Seq::<Nla>::empty() =~= seq![a]);
}

/// The bytes of two attributes hold both.
proof fn lemma_two_attrs(order: ByteOrder, a: Nla, b: Nla)
    requires
        a.value.len() <= 16,
        b.value.len() <= 16,
    ensures
        nlas(order, nla_bytes(order, a.typ, a.value) + nla_bytes(order, b.typ, b.value)) == seq![
            a,
            b,
        ],
        nlas_error(
            order,
            nla_bytes(order, a.typ, a.value) + nla_bytes(order, b.typ, b.value),
        ) is None,
{
    lemma_one_attr(order, b);
    nla_reads_back(order, a.typ, a.value, nla_bytes(order, b.typ, b.value));
    assert(seq![a] + seq![b] =~= seq![a, b]);
}

/// What one attribute with an address comes to.
proof fn lemma_read_one(order: ByteOrder, family: u8, a: Nla)
    requires
        a.typ == 1,
        1 <= a.value.len() <= 16,
    ensures
        ({
            let got = ifaddr_attrs(order, family, seq![a]);
            got.flags == u32::MAX && got.addr == Some(a.value) && got.error is None
        }),
{
    let one = seq![a];
    assert(one.last() == a);
    assert(one.drop_last() =~= Seq::<Nla>::empty());
    assert(ifaddr_attrs(order, family, Seq::<Nla>::empty()).addr is None);
}

/// What two attributes come to: the address of the interface itself counts for IPv4, whichever
/// order they stand in, and flags of their own attribute count.
proof fn lemma_read_two(order: ByteOrder, family: u8, a: Nla, b: Nla)
    requires
        1 <= a.value.len() <= 16,
        1 <= b.value.len() <= 16,
    ensures
        ({
            let got = ifaddr_attrs(order, family, seq![a, b]);
            &&& family == 2 && a.typ == 1 && b.typ == 2 ==> got.flags == u32::MAX && got.addr
                == Some(b.value) && got.error is None
            &&& family == 2 && a.typ == 2 && b.typ == 1 ==> got.flags == u32::MAX && got.addr
                == Some(a.value) && got.error is None
            &&& a.typ == 1 && b.typ == 8 && b.value.len() == 4 ==> got.flags == u32_at(
                order,
                b.value,
                0,
            ) && got.addr == Some(a.value) && got.error is None
        }),
{
    let two = seq![a, b];
    let one = seq![a];
    assert(two.last() == b);
    assert(two.drop_last() =~= one);
    assert(one.last() == a);
    assert(one.drop_last() =~= Seq::<Nla>::empty());
    let none = ifaddr_attrs(order, family, Seq::<Nla>::empty());
    assert(none.addr is None && none.error is None && none.flags == u32::MAX);
    let first = ifaddr_attrs(order, family, one);
}

/// Of a point-to-point link, the address of this end gets the rule, not that of the other end,
/// whichever stands first.
pub proof fn own_end_of_a_link_gets_the_rule(
    order: ByteOrder,
    m: Message,
    ifa: IfAddrMsg,
    own: IpAddr,
    peer: IpAddr,
    peer_first: bool,
    ipv6_enabled: bool,
    filters: &IgnoreFilters,
)
    requires
        own is V4,
        peer is V4,
        ifa.ifa_family == 2,
        m.header.nlmsg_type == 20 || m.header.nlmsg_type == 21,
        m.data == announcement(
            order,
            ifa,
            if peer_first {
                nla_bytes(order, 1, octets(peer)) + nla_bytes(order, 2, octets(own))
            } else {
                nla_bytes(order, 2, octets(own)) + nla_bytes(order, 1, octets(peer))
            },
        ),
    ensures
        addr_event(order, m, ipv6_enabled, filters) == Ok::<Option<AddrEventView>, ErrorView>(
            expected(m.header.nlmsg_type, ifa, ifa.ifa_flags as u32, own, ipv6_enabled, filters),
        ),
{
    let p = Nla { typ: 1, value: octets(peer) };
    let o = Nla { typ: 2, value: octets(own) };
    let attrs = if peer_first {
        nla_bytes(order, 1, octets(peer)) + nla_bytes(order, 2, octets(own))
    } else {
        nla_bytes(order, 2, octets(own)) + nla_bytes(order, 1, octets(peer))
    };
    if peer_first {
        lemma_two_attrs(order, p, o);
        lemma_read_two(order, 2, p, o);
    } else {
        lemma_two_attrs(order, o, p);
        lemma_read_two(order, 2, o, p);
    }
    lemma_event(order, m, ifa, attrs, u32::MAX, own, own, ipv6_enabled, filters);
}

/// What an address and flags come to, whichever bytes the flags are read from.
#[verifier::rlimit(40)]
proof fn lemma_flagged_event(
    order: ByteOrder,
    m: Message,
    ifa: IfAddrMsg,
    addr: IpAddr,
    known: IpAddr,
    value: Seq<u8>,
    ipv6_enabled: bool,
    filters: &IgnoreFilters,
)
    requires
        value.len() == 4,
        u32_at(order, value, 0) != u32::MAX,
        ifa.ifa_family == family_of(addr),
        key_of(known) == unmapped(key_of(addr)),
        m.header.nlmsg_type == 20 || m.header.nlmsg_type == 21,
        m.data == announcement(
            order,
            ifa,
            nla_bytes(order, 1, octets(addr)) + nla_bytes(order, 8, value),
        ),
    ensures
        addr_event(order, m, ipv6_enabled, filters) == Ok::<Option<AddrEventView>, ErrorView>(
            expected(
                m.header.nlmsg_type,
                ifa,
                u32_at(order, value, 0),
                known,
                ipv6_enabled,
                filters,
            ),
        ),
{
    let a = Nla { typ: 1, value: octets(addr) };
    let f = Nla { typ: 8, value };
    let attrs = nla_bytes(order, 1, octets(addr)) + nla_bytes(order, 8, value);
    lemma_two_attrs(order, a, f);
    lemma_read_two(order, ifa.ifa_family, a, f);
    lemma_event(
        order,
        m,
        ifa,
        attrs,
        u32_at(order, value, 0),
        addr,
        known,
        ipv6_enabled,
        filters,
    );
}

/// Flags in an attribute of their own count, and those of the message do not.
pub proof fn flags_of_the_attribute_count(
    order: ByteOrder,
    m: Message,
    ifa: IfAddrMsg,
    addr: IpAddr,
    known: IpAddr,
    flags: u32,
    ipv6_enabled: bool,
    filters: &IgnoreFilters,
)
    requires
        flags != u32::MAX,
        ifa.ifa_family == family_of(addr),
        key_of(known) == unmapped(key_of(addr)),
        m.header.nlmsg_type == 20 || m.header.nlmsg_type == 21,
        m.data == announcement(
            order,
            ifa,
            nla_bytes(order, 1, octets(addr)) + nla_bytes(order, 8, u32_bytes(order, flags)),
        ),
    ensures
        addr_event(order, m, ipv6_enabled, filters) == Ok::<Option<AddrEventView>, ErrorView>(
            expected(m.header.nlmsg_type, ifa, flags, known, ipv6_enabled, filters),
        ),
{
    lemma_number_alone(order, flags);
    lemma_flagged_event(
        order,
        m,
        ifa,
        addr,
        known,
        u32_bytes(order, flags),
        ipv6_enabled,
        filters,
    );
}

/// A dump brings the addresses of its messages that get a rule, in order.
pub proof fn dumped_addresses_are_listed_in_order(
    order: ByteOrder,
    messages: Seq<Message>,
    m: Message,
    ipv6_enabled: bool,
    filters: &IgnoreFilters,
)
    ensures
        dumped_keys(order, Seq::empty(), ipv6_enabled, filters).len() == 0,
        dumped_keys(order, messages.push(m), ipv6_enabled, filters) == (match dumped_key(
            order,
            m,
            ipv6_enabled,
            filters,
        ) {
            Some(key) => dumped_keys(order, messages, ipv6_enabled, filters).push(key),
            None => dumped_keys(order, messages, ipv6_enabled, filters),
        }),
        m.header.nlmsg_type != 20 ==> dumped_key(order, m, ipv6_enabled, filters) is None,
{
    assert(messages.push(m).drop_last() =~= messages);
}

// ---------------------------------------------------------------------------
// Parts of an announcement
// ---------------------------------------------------------------------------

/// An address is read from the first four octets for IPv4 (2) and from the first sixteen for IPv6
/// (10); with fewer, and in any other family, there is none.
pub proof fn addresses_are_read_by_family(
    family: u8,
    four: [u8; 4],
    sixteen: [u8; 16],
    rest: Seq<u8>,
)
    ensures
        raw_key(2, four@ + rest) == Some(key_of(IpAddr::V4(four))),
        raw_key(10, sixteen@ + rest) == Some(key_of(IpAddr::V6(sixteen))),
        rest.len() < 4 ==> raw_key(2, rest) is None,
        rest.len() < 16 ==> raw_key(10, rest) is None,
        family != 2 && family != 10 ==> raw_key(family, rest) is None,
{
    let a = four@ + rest;
    assert(a[0] == four@[0] && a[1] == four@[1] && a[2] == four@[2] && a[3] == four@[3]);
    let b = sixteen@ + rest;
    assert forall|i: int| 0 <= i < 16 implies #[trigger] b[i] == sixteen@[i] by {}
    assert(be32(b, 0) == be32(sixteen@, 0));
    assert(be32(b, 4) == be32(sixteen@, 4));
    assert(be32(b, 8) == be32(sixteen@, 8));
    assert(be32(b, 12) == be32(sixteen@, 12));
}

/// One more attribute of an announcement: flags (8) replace the flags, where there are four bytes; an
/// address (1) is taken for any family but IPv4 (2), and for IPv4 only where there is none yet; the
/// address of this end (2) is taken for IPv4 and for no other family; an address that is taken must
/// have one to sixteen octets; and every other attribute is passed over.
pub proof fn attributes_of_an_announcement_count(
    order: ByteOrder,
    family: u8,
    attrs: Seq<Nla>,
    a: Nla,
)
    requires
        ifaddr_attrs(order, family, attrs).error is None,
    ensures
        ({
            let before = ifaddr_attrs(order, family, attrs);
            let after = ifaddr_attrs(order, family, attrs.push(a));
            let fits = 1 <= a.value.len() <= 16;
            let taken = a.typ == 2 && family == 2 || a.typ == 1 && family != 2 || a.typ == 1
                && family == 2 && before.addr is None;
            &&& a.typ == 8 && a.value.len() >= 4 ==> after.flags == u32_at(order, a.value, 0)
                && after.addr == before.addr && after.error is None
            &&& a.typ == 8 && a.value.len() < 4 ==> after == before
            &&& a.typ != 8 && taken && fits ==> after.addr == Some(a.value) && after.flags
                == before.flags && after.error is None
            &&& a.typ != 8 && taken && !fits ==> after.error is Some
            &&& a.typ != 8 && !taken ==> after == before
        }),
        ifaddr_attrs(order, family, Seq::empty()).flags == u32::MAX,
        ifaddr_attrs(order, family, Seq::empty()).addr is None,
        ifaddr_attrs(order, family, Seq::empty()).error is None,
{
    assert(attrs.push(a).drop_last() =~= attrs);
}

/// An announcement that is cut short says nothing; one whose attributes are broken, or that holds no
/// address, cannot be read.
pub proof fn broken_announcements_are_told(
    order: ByteOrder,
    m: Message,
    ipv6_enabled: bool,
    filters: &IgnoreFilters,
)
    ensures
        m.data.len() < 8 ==> addr_event(order, m, ipv6_enabled, filters) == Ok::<
            Option<AddrEventView>,
            ErrorView,
        >(None),
        m.data.len() >= 8 && nlas_error(order, m.data.skip(8)) is Some ==> addr_event(
            order,
            m,
            ipv6_enabled,
            filters,
        ) is Err,
        m.data.len() >= 8 && ifaddr_attrs(order, m.data[0], nlas(order, m.data.skip(8))).addr is None
            ==> addr_event(order, m, ipv6_enabled, filters) is Err,
        m.data.len() >= 8 && ifaddr_attrs(
            order,
            m.data[0],
            nlas(order, m.data.skip(8)),
        ).error is Some ==> addr_event(order, m, ipv6_enabled, filters) is Err,
        m.data.len() >= 8 && m.data[3] != 0 ==> !(addr_event(
            order,
            m,
            ipv6_enabled,
            filters,
        ) matches Ok(Some(_))),
        m.data.len() >= 8 && m.data[0] != 2 && m.data[0] != 10 ==> !(addr_event(
            order,
            m,
            ipv6_enabled,
            filters,
        ) matches Ok(Some(_))),
{
    if m.data.len() >= 8 {
        assert(m.data.skip(8) =~= m.data.subrange(8, m.data.len() as int));
    }
}

} // verus!
