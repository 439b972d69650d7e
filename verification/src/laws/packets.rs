//! How packets fall into messages, and messages into parts.
use crate::bytes::{
    low_byte, u16_at, u16_bytes, u16_reads_back, u32_at, u32_bytes, zeros, ByteOrder,
};
use crate::laws::wire::lemma_number_alone;
use crate::netlink::cleanup::found_rule;
use crate::netlink::codec::{
    align4, ext_text, header_at, header_bytes, header_reads_back, items, last_offset, last_text,
    next_item, nla_bytes, nla_offset, nla_text, nlas, nlas_error, seq_after, Item, Message,
    NetlinkHeader, Nla,
};
use crate::netlink::linux_types::{
    ifaddrmsg_at, ifaddrmsg_bytes, rtmsg_at, rtmsg_bytes, IfAddrMsg, RtMsg,
};
use crate::netlink::rule::{
    ack_item_error, after_items, after_message, batch_messages, rule_message, with_non_ack,
    with_seq_mismatch, RuleContext, RuleOp, Tracker,
};
use crate::netlink::socket::{addr_groups, packet_items, transient_errno};
use crate::text::{lemma_find_unique, trimmed};
use vstd::prelude::*;
use vstd::utf8::{encode_utf8, encode_utf8_decode_utf8, encode_utf8_valid_utf8, is_ascii_chars};

verus! {

// ---------------------------------------------------------------------------
// Bodies
// ---------------------------------------------------------------------------

/// The fields of a rule or a route stand byte by byte: family, length of the destination, length of
/// the source, service, table, protocol, scope and type, and then the flags in four bytes.
pub proof fn rule_body_stands_byte_by_byte(order: ByteOrder, m: RtMsg, s: Seq<u8>)
    ensures
        ({
            let b = rtmsg_bytes(order, m);
            &&& b.len() == 12
            &&& b[0] == m.rtm_family && b[1] == m.rtm_dst_len && b[2] == m.rtm_src_len && b[3]
                == m.rtm_tos
            &&& b[4] == m.rtm_table && b[5] == m.rtm_protocol && b[6] == m.rtm_scope && b[7]
                == m.rtm_type
            &&& b.skip(8) == u32_bytes(order, m.rtm_flags)
        }),
        ({
            let r = rtmsg_at(order, s);
            &&& r.rtm_family == s[0] && r.rtm_dst_len == s[1] && r.rtm_src_len == s[2] && r.rtm_tos
                == s[3]
            &&& r.rtm_table == s[4] && r.rtm_protocol == s[5] && r.rtm_scope == s[6] && r.rtm_type
                == s[7]
            &&& r.rtm_flags == u32_at(order, s, 8)
        }),
{
    lemma_number_alone(order, m.rtm_flags);
    assert(rtmsg_bytes(order, m).skip(8) =~= u32_bytes(order, m.rtm_flags));
}

/// The fields of an address stand byte by byte: family, length of the prefix, flags and scope, and
/// then the index of the interface in four bytes.
pub proof fn address_body_stands_byte_by_byte(order: ByteOrder, m: IfAddrMsg, s: Seq<u8>)
    ensures
        ({
            let b = ifaddrmsg_bytes(order, m);
            &&& b.len() == 8
            &&& b[0] == m.ifa_family && b[1] == m.ifa_prefixlen && b[2] == m.ifa_flags && b[3]
                == m.ifa_scope
            &&& b.skip(4) == u32_bytes(order, m.ifa_index)
        }),
        ({
            let r = ifaddrmsg_at(order, s);
            &&& r.ifa_family == s[0] && r.ifa_prefixlen == s[1] && r.ifa_flags == s[2]
                && r.ifa_scope == s[3]
            &&& r.ifa_index == u32_at(order, s, 4)
        }),
{
    lemma_number_alone(order, m.ifa_index);
    assert(ifaddrmsg_bytes(order, m).skip(4) =~= u32_bytes(order, m.ifa_index));
}

/// A length is brought up to the next multiple of four.
pub proof fn lengths_are_brought_up_to_four(n: int)
    ensures
        align4(n) % 4 == 0,
        n <= align4(n) < n + 4,
{
}

/// An attribute is its length, which counts the four bytes before the value, its type, its value,
/// and zeros up to a multiple of four.
#[verifier::rlimit(40)]
pub proof fn attribute_stands_byte_by_byte(order: ByteOrder, typ: u16, payload: Seq<u8>, i: int)
    requires
        payload.len() <= 0xFFFB,
    ensures
        ({
            let b = nla_bytes(order, typ, payload);
            &&& u16_at(order, b, 0) == payload.len() + 4
            &&& u16_at(order, b, 2) == typ
            &&& b.subrange(4, 4 + payload.len() as int) == payload
            &&& b.len() % 4 == 0 && payload.len() + 4 <= b.len() < payload.len() + 8
            &&& 4 + payload.len() <= i < b.len() ==> b[i] == 0
        }),
{
    let len = (payload.len() + 4) as u16;
    let pad = zeros((align4(4 + payload.len() as int) - (4 + payload.len())) as nat);
    let b = nla_bytes(order, typ, payload);
    let none = Seq::<u8>::empty();
    let l = u16_bytes(order, len);
    let t = u16_bytes(order, typ);
    assert((4 + payload.len()) % 0x1_0000 == 4 + payload.len());
    u16_reads_back(order, len, none, t + payload + pad);
    assert(none + l + (t + payload + pad) =~= b);
    u16_reads_back(order, typ, l, payload + pad);
    assert(l + t + (payload + pad) =~= b);
    assert(b.subrange(4, 4 + payload.len() as int) =~= payload);
}

/// Attributes end without an error where nothing is left; less than four bytes, a length below four
/// or beyond what is left, and a value that is not filled up to four are errors, and nothing is
/// read after the first.
pub proof fn broken_attributes_are_errors(order: ByteOrder, raw: Seq<u8>)
    ensures
        raw.len() == 0 ==> nlas_error(order, raw) is None && nlas(order, raw).len() == 0,
        0 < raw.len() < 4 ==> nlas_error(order, raw) is Some && nlas(order, raw).len() == 0,
        raw.len() >= 4 && (u16_at(order, raw, 0) < 4 || u16_at(order, raw, 0) > raw.len())
            ==> nlas_error(order, raw) is Some && nlas(order, raw).len() == 0,
        raw.len() >= 4 && 4 <= u16_at(order, raw, 0) <= raw.len() ==> {
            let len = u16_at(order, raw, 0) as int;
            &&& nlas(order, raw).len() >= 1
            &&& nlas(order, raw)[0].typ == u16_at(order, raw, 2)
            &&& nlas(order, raw)[0].value == raw.subrange(4, len)
            &&& align4(len) > raw.len() ==> nlas_error(order, raw) is Some && nlas(order, raw).len()
                == 1
            &&& align4(len) <= raw.len() ==> nlas_error(order, raw) == nlas_error(
                order,
                raw.skip(align4(len)),
            ) && nlas(order, raw).skip(1) == nlas(order, raw.skip(align4(len)))
        },
{
    if raw.len() >= 4 && 4 <= u16_at(order, raw, 0) <= raw.len() {
        let len = u16_at(order, raw, 0) as int;
        if align4(len) <= raw.len() {
            let rest = raw.subrange(align4(len), raw.len() as int);
            assert(rest =~= raw.skip(align4(len)));
            assert(nlas(order, raw).skip(1) =~= nlas(order, rest));
        }
    }
}

// ---------------------------------------------------------------------------
// Messages
// ---------------------------------------------------------------------------

/// A packet is cut into messages at the lengths that their headers give, each brought up to four: a
/// header, as many bytes as it says, what fills them up, and then the next message.
#[verifier::rlimit(40)]
pub proof fn packets_are_cut_into_messages(
    order: ByteOrder,
    h: NetlinkHeader,
    data: Seq<u8>,
    filling: Seq<u8>,
    rest: Seq<u8>,
)
    requires
        h.nlmsg_len == 16 + data.len(),
        filling.len() < 4,
        (data.len() + filling.len()) % 4 == 0,
    ensures
        items(order, header_bytes(order, h) + data + filling + rest) == seq![
            Item::Message(Message { header: h, data }),
        ] + items(order, rest),
        items(order, Seq::empty()).len() == 0,
{
    let tail = data + filling + rest;
    header_reads_back(order, h, tail);
    lemma_cut(order, header_bytes(order, h), h, data, filling, rest);
}

/// The first message of a packet, whichever bytes its header is read from.
#[verifier::rlimit(40)]
proof fn lemma_cut(
    order: ByteOrder,
    head: Seq<u8>,
    h: NetlinkHeader,
    data: Seq<u8>,
    filling: Seq<u8>,
    rest: Seq<u8>,
)
    requires
        head.len() == 16,
        header_at(order, head + (data + filling + rest)) == h,
        h.nlmsg_len == 16 + data.len(),
        filling.len() < 4,
        (data.len() + filling.len()) % 4 == 0,
    ensures
        items(order, head + data + filling + rest) == seq![
            Item::Message(Message { header: h, data }),
        ] + items(order, rest),
{
    let raw = head + data + filling + rest;
    assert(raw =~= head + (data + filling + rest));
    let len = h.nlmsg_len as int;
    assert(align4(len) == 16 + data.len() + filling.len());
    assert(raw.subrange(16, len) =~= data);
    assert(raw.subrange(align4(len), raw.len() as int) =~= rest);
    assert(header_at(order, raw).nlmsg_len == u32_at(order, raw, 0));
    assert(next_item(order, raw) == (Item::Message(Message { header: h, data }), rest));
}

/// A packet that does not hold a whole header, or not as much as its header says, is one error, and
/// nothing after it is read.
pub proof fn broken_packets_are_errors(order: ByteOrder, raw: Seq<u8>)
    requires
        raw.len() > 0,
        raw.len() < 16 || u32_at(order, raw, 0) < 16 || u32_at(order, raw, 0) > raw.len() || align4(
            u32_at(order, raw, 0) as int,
        ) > raw.len(),
    ensures
        items(order, raw).len() == 1,
        items(order, raw)[0] is Error,
{
    assert(items(order, Seq::<u8>::empty()) =~= Seq::<Item>::empty());
}

/// Packets are read one after the other.
pub proof fn packets_are_read_in_turn(order: ByteOrder, packets: Seq<Seq<u8>>, packet: Seq<u8>)
    ensures
        packet_items(order, Seq::empty()).len() == 0,
        packet_items(order, packets.push(packet)) == packet_items(order, packets) + items(
            order,
            packet,
        ),
{
    assert(packets.push(packet).drop_last() =~= packets);
}

/// The messages of a batch are those of its changes, in order, each under the number that follows
/// the one before.
pub proof fn batch_numbers_its_messages(
    order: ByteOrder,
    ctx: RuleContext,
    ops: Seq<RuleOp>,
    first_seq: u32,
    i: int,
)
    requires
        0 <= i < ops.len(),
    ensures
        batch_messages(order, ctx, ops, first_seq).len() == ops.len(),
        batch_messages(order, ctx, ops, first_seq)[i] == rule_message(
            order,
            ctx,
            ops[i],
            seq_after(first_seq, i) as u32,
        ),
        first_seq >= 1 ==> batch_messages(order, ctx, ops, first_seq)[0] == rule_message(
            order,
            ctx,
            ops[0],
            first_seq,
        ),
{
}

// ---------------------------------------------------------------------------
// Acknowledgements
// ---------------------------------------------------------------------------

/// What is received is taken into account one by one, up to the first error; a message that is no
/// acknowledgement, and one under a foreign number, is counted and changes nothing else.
pub proof fn acknowledgements_are_taken_in_turn(
    order: ByteOrder,
    t: Tracker,
    received: Seq<Item>,
    item: Item,
    first_seq: u32,
    batch_len: int,
)
    ensures
        after_items(order, t, Seq::empty(), first_seq, batch_len).0 == t,
        after_items(order, t, Seq::empty(), first_seq, batch_len).1 is None,
        ({
            let before = after_items(order, t, received, first_seq, batch_len);
            let after = after_items(order, t, received.push(item), first_seq, batch_len);
            &&& before.1 is Some ==> after == before
            &&& before.1 is None ==> match item {
                Item::Error(e) => after.0 == before.0 && after.1 == Some(e),
                Item::Message(m) => {
                    &&& after.1 is Some <==> ack_item_error(item, first_seq, batch_len) is Some
                    &&& after.1 is Some ==> after.0 == before.0 && m.header.nlmsg_type == 2
                        && m.data.len() < 4
                    &&& after.1 is None ==> after.0 == after_message(
                        order,
                        before.0,
                        m,
                        first_seq,
                        batch_len,
                    )
                    &&& m.header.nlmsg_type != 2 ==> after.1 is None
                },
            }
        }),
        with_non_ack(t).seen == t.seen,
        with_non_ack(t).status == t.status,
        with_non_ack(t).pending == t.pending,
        with_non_ack(t).count_seq_mismatch == t.count_seq_mismatch,
        t.count_non_ack < usize::MAX ==> with_non_ack(t).count_non_ack == t.count_non_ack + 1,
        t.count_non_ack == usize::MAX ==> with_non_ack(t) == t,
        t.count_seq_mismatch == usize::MAX ==> with_seq_mismatch(t) == t,
        with_seq_mismatch(t).seen == t.seen,
        with_seq_mismatch(t).status == t.status,
        with_seq_mismatch(t).pending == t.pending,
        with_seq_mismatch(t).count_non_ack == t.count_non_ack,
        t.count_seq_mismatch < usize::MAX ==> with_seq_mismatch(t).count_seq_mismatch
            == t.count_seq_mismatch + 1,
{
    let all = received.push(item);
    assert(all.drop_last() =~= received);
    assert(all.last() == item);
}

/// What the kernel adds to an error is the last text and the last offset that can be used.
pub proof fn last_explanation_counts(order: ByteOrder, attrs: Seq<Nla>, a: Nla)
    ensures
        last_text(Seq::empty()) is None,
        last_offset(order, Seq::empty()) is None,
        nla_text(a) is Some ==> last_text(attrs.push(a)) == nla_text(a),
        nla_text(a) is None ==> last_text(attrs.push(a)) == last_text(attrs),
        nla_offset(order, a) is Some ==> last_offset(order, attrs.push(a)) == nla_offset(order, a),
        nla_offset(order, a) is None ==> last_offset(order, attrs.push(a)) == last_offset(
            order,
            attrs,
        ),
        a.typ != 1 ==> nla_text(a) is None,
        a.typ != 2 ==> nla_offset(order, a) is None,
        a.typ == 2 && a.value.len() >= 4 ==> nla_offset(order, a) == Some(
            u32_at(order, a.value, 0),
        ),
        a.typ == 2 && a.value.len() < 4 ==> nla_offset(order, a) is None,
{
    assert(attrs.push(a).drop_last() =~= attrs);
}

/// A text of the kernel is kept without the space around it, up to 96 characters; one that is empty
/// or not plain ASCII is not kept.
pub proof fn explanations_are_kept_short(s: Seq<char>)
    ensures
        ext_text(s) is Some <==> trimmed(s).len() > 0 && is_ascii_chars(trimmed(s)),
        ext_text(s) matches Some(t) ==> t.len() <= 96 && t == trimmed(s).take(t.len() as int),
        ext_text(s) matches Some(t) ==> (trimmed(s).len() <= 96 ==> t == trimmed(s)),
        ext_text(s) matches Some(t) ==> (trimmed(s).len() > 96 ==> t.len() == 96),
{
    let t = trimmed(s);
    assert(t.take(t.len() as int) =~= t);
    if t.len() > 96 {
        assert(t.subrange(0, 96) =~= t.take(96));
    }
}

// ---------------------------------------------------------------------------
// Sockets
// ---------------------------------------------------------------------------

/// The daemon listens for IPv4 addresses, and with IPv6 enabled for IPv6 addresses too.
pub proof fn daemon_listens_for_addresses()
    ensures
        addr_groups(false) == 0x10,
        addr_groups(true) == 0x110,
{
    assert(1u32 << 4u32 == 0x10) by (bit_vector);
    assert((1u32 << 4u32) | (1u32 << 8u32) == 0x110) by (bit_vector);
}

/// Only an interruption (4) and the want of packets (11) are no failure to receive.
pub proof fn interruptions_are_no_failures(code: i32)
    ensures
        transient_errno(Some(code)) <==> code == 4 || code == 11,
        !transient_errno(None),
{
}

/// A small number is its own low byte.
pub proof fn small_numbers_are_bytes(v: i32)
    ensures
        0 <= v < 256 ==> low_byte(v) == v,
{
}

// ---------------------------------------------------------------------------
// Rules without a table of their own
// ---------------------------------------------------------------------------

/// A rule is in the table that its attribute names, wherever it stands, and else in the table of
/// its body; the last priority, table and destination count.
pub proof fn attributes_of_a_rule_count(order: ByteOrder, body_table: u8, attrs: Seq<Nla>, a: Nla)
    requires
        found_rule(order, body_table, attrs).error is None,
    ensures
        ({
            let none = found_rule(order, body_table, Seq::empty());
            &&& none.table_id == body_table && none.pref is None && none.dst is None
                && none.error is None
        }),
        ({
            let before = found_rule(order, body_table, attrs);
            let after = found_rule(order, body_table, attrs.push(a));
            &&& a.typ == 6 && a.value.len() >= 4 ==> after.pref == Some(u32_at(order, a.value, 0))
                && after.table_id == before.table_id && after.dst == before.dst && after.error
                is None
            &&& a.typ == 15 && a.value.len() >= 4 ==> after.table_id == u32_at(order, a.value, 0)
                && after.pref == before.pref && after.dst == before.dst && after.error is None
            &&& a.typ == 1 && 1 <= a.value.len() <= 16 ==> after.dst == Some(a.value) && after.pref
                == before.pref && after.table_id == before.table_id && after.error is None
            &&& a.typ == 1 && (a.value.len() == 0 || a.value.len() > 16) ==> after.error is Some
            &&& a.typ != 1 && a.typ != 6 && a.typ != 15 ==> after == before
        }),
{
    assert(attrs.push(a).drop_last() =~= attrs);
}

/// A text of the kernel ends at its first zero.
pub proof fn explanations_end_at_a_zero(text: Seq<char>, rest: Seq<u8>)
    requires
        !encode_utf8(text).contains(0),
    ensures
        nla_text(Nla { typ: 1, value: encode_utf8(text) + seq![0u8] + rest }) == ext_text(text),
        nla_text(Nla { typ: 1, value: encode_utf8(text) }) == ext_text(text),
{
    let bytes = encode_utf8(text);
    let value = bytes + seq![0u8] + rest;
    let k = bytes.len() as int;
    encode_utf8_valid_utf8(text);
    encode_utf8_decode_utf8(text);
    assert(value[k] == 0);
    assert forall|i: int| 0 <= i < k implies value[i] != 0 by {
        assert(value[i] == bytes[i]);
        assert(bytes.contains(bytes[i]));
    }
    lemma_find_unique(value, 0u8, k);
    assert(value.subrange(0, k) =~= bytes);
    assert forall|i: int| 0 <= i < k implies bytes[i] != 0 by {
        assert(bytes.contains(bytes[i]));
    }
    lemma_find_unique(bytes, 0u8, k);
    assert(bytes.subrange(0, k) =~= bytes);
}

} // verus!
