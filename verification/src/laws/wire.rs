//! What the messages to and from the kernel say, byte by byte.
use crate::bytes::{signed32, u16_at, u16_bytes, u32_at, u32_bytes, u32_reads_back, ByteOrder};
use crate::ip_key::octets;
use crate::netlink::addr::addr_dump_message;
use crate::netlink::cleanup::rule_dump_message;
use crate::netlink::codec::{
    ack_attrs, ack_errno, ack_error, batch_index, batch_index_inverts_offset, header_bytes,
    header_reads_back, last_offset, last_text, nla_bytes, nla_reads_back, nlas, seq_after, seq_norm,
    AckError, Message, NetlinkHeader, Nla, SEQ_SPAN,
};
use crate::netlink::linux_types::{ifaddrmsg_bytes, rtmsg_bytes, IfAddrMsg, RtMsg};
use crate::netlink::rule::{
    ack_class, after_message, fresh_tracker, rule_data, rule_data_reads_back, rule_header,
    rule_message, rule_message_length, wait_error, with_status, AckWaitErrorKind, RuleAckClass,
    RuleAction, RuleContext, RuleOp, Tracker,
};
use vstd::prelude::*;

verus! {

// ---------------------------------------------------------------------------
// Numbers
// ---------------------------------------------------------------------------

/// The bytes of a number weigh up to the number: in little-endian order the first byte is the
/// least significant, in big-endian order the last.
pub proof fn bytes_weigh_up_to_the_number(a: u16, b: u32)
    ensures
        u16_bytes(ByteOrder::Little, a).len() == 2,
        u16_bytes(ByteOrder::Little, a)[0] + 256 * u16_bytes(ByteOrder::Little, a)[1] == a,
        u16_bytes(ByteOrder::Big, a) == u16_bytes(ByteOrder::Little, a).reverse(),
        u32_bytes(ByteOrder::Little, b).len() == 4,
        u32_bytes(ByteOrder::Little, b)[0] + 256 * u32_bytes(ByteOrder::Little, b)[1] + 65536
            * u32_bytes(ByteOrder::Little, b)[2] + 16777216 * u32_bytes(ByteOrder::Little, b)[3]
            == b,
        u32_bytes(ByteOrder::Big, b) == u32_bytes(ByteOrder::Little, b).reverse(),
{
    assert(u16_bytes(ByteOrder::Big, a) =~= u16_bytes(ByteOrder::Little, a).reverse());
    assert(u32_bytes(ByteOrder::Big, b) =~= u32_bytes(ByteOrder::Little, b).reverse());
}

/// A number that is read weighs its bytes: four bytes in little-endian order are the number that
/// the same bytes the other way round are in big-endian order.
pub proof fn reading_weighs_bytes(s: Seq<u8>)
    requires
        s.len() == 4,
    ensures
        u32_at(ByteOrder::Little, s, 0) == s[0] + 256 * s[1] + 65536 * s[2] + 16777216 * s[3],
        u32_at(ByteOrder::Big, s, 0) == u32_at(ByteOrder::Little, s.reverse(), 0),
        u16_at(ByteOrder::Little, s, 0) == s[0] + 256 * s[1],
        u16_at(ByteOrder::Big, s, 2) == u16_at(ByteOrder::Little, s.reverse(), 0),
{
}

/// A 32-bit pattern read as a signed number is the number that it is congruent to.
pub proof fn signed_numbers_wrap(v: u32)
    ensures
        (signed32(v) - v) % 0x1_0000_0000 == 0,
{
}

// ---------------------------------------------------------------------------
// Rules
// ---------------------------------------------------------------------------

/// Four bytes of a number by themselves are read as the number.
pub(crate) proof fn lemma_number_alone(order: ByteOrder, v: u32)
    ensures
        u32_bytes(order, v).len() == 4,
        u32_at(order, u32_bytes(order, v), 0) == v,
{
    let none = Seq::<u8>::empty();
    u32_reads_back(order, v, none, none);
    assert(none + u32_bytes(order, v) + none =~= u32_bytes(order, v));
}

/// What stands where in a message that starts with a header.
pub(crate) proof fn lemma_after_header(order: ByteOrder, h: NetlinkHeader, data: Seq<u8>)
    requires
        data.len() >= 12,
    ensures
        ({
            let m = header_bytes(order, h) + data;
            &&& m.len() == 16 + data.len()
            &&& u32_at(order, m, 0) == h.nlmsg_len
            &&& u16_at(order, m, 4) == h.nlmsg_type
            &&& u16_at(order, m, 6) == h.nlmsg_flags
            &&& u32_at(order, m, 8) == h.nlmsg_seq
            &&& u32_at(order, m, 12) == h.nlmsg_pid
            &&& m[16] == data[0] && m[17] == data[1] && m[18] == data[2] && m[19] == data[3]
            &&& m[20] == data[4] && m[21] == data[5] && m[22] == data[6] && m[23] == data[7]
            &&& u32_at(order, m, 24) == u32_at(order, data, 8)
            &&& m.skip(28) == data.skip(12)
        }),
{
    header_reads_back(order, h, data);
    let head = header_bytes(order, h);
    let m = head + data;
    assert(m.skip(28) =~= data.skip(12));
    assert(m[24] == data[8] && m[25] == data[9] && m[26] == data[10] && m[27] == data[11]);
}

/// The message for a rule says, for every address of either family: its own length; to add a rule
/// exactly where one is to be added, and to delete one exactly where one is to be deleted; that an
/// acknowledgement is wanted, and that a rule to add must not be there yet; the sequence number;
/// the family and the full length of the address; and, as its only attributes, the address, the
/// priority and the table.
#[verifier::rlimit(40)]
pub proof fn rule_message_says_what_to_do(
    order: ByteOrder,
    ctx: RuleContext,
    op: RuleOp,
    seq: u32,
)
    ensures
        ({
            let m = rule_message(order, ctx, op, seq);
            let v4 = op.addr is V4;
            let add = op.action == RuleAction::Add;
            &&& m.len() == if v4 {
                52int
            } else {
                64
            }
            &&& u32_at(order, m, 0) == m.len()
            &&& u16_at(order, m, 4) == 32 <==> add
            &&& u16_at(order, m, 4) == 33 <==> op.action == RuleAction::Delete
            &&& u16_at(order, m, 6) == if add {
                0x605u16
            } else {
                0x5
            }
            &&& u32_at(order, m, 8) == seq
            &&& u32_at(order, m, 12) == 0
            &&& m[16] == if v4 {
                2u8
            } else {
                10
            }
            &&& m[17] == if v4 {
                32u8
            } else {
                128
            }
            &&& m[18] == 0 && m[19] == 0
            &&& m[20] == if ctx.table_id < 256 {
                ctx.table_id as int
            } else {
                0
            }
            &&& m[21] == 3 && m[22] == 0 && m[23] == 1
            &&& u32_at(order, m, 24) == 0
            &&& ({
                let attrs = nlas(order, m.skip(28));
                &&& attrs.len() == 3
                &&& attrs[0].typ == 1 && attrs[0].value == octets(op.addr)
                &&& attrs[1].typ == 6 && attrs[1].value.len() == 4 && u32_at(
                    order,
                    attrs[1].value,
                    0,
                ) == ctx.pref
                &&& attrs[2].typ == 15 && attrs[2].value.len() == 4 && u32_at(
                    order,
                    attrs[2].value,
                    0,
                ) == ctx.table_id
            })
        }),
{
    let data = rule_data(order, ctx, op);
    rule_message_length(order, ctx, op, seq);
    rule_data_reads_back(order, ctx, op);
    lemma_after_header(order, rule_header(ctx, op, seq), data);
    assert(data.skip(12) =~= data.subrange(12, data.len() as int));
    assert(0x1u16 | 0x4u16 | (0x400u16 | 0x200u16) == 0x605) by (bit_vector);
    assert(0x1u16 | 0x4u16 == 0x5) by (bit_vector);
    lemma_number_alone(order, ctx.pref);
    lemma_number_alone(order, ctx.table_id);
}

/// Messages that differ in the change, the address, the priority or the table say different
/// things.
pub proof fn different_changes_make_different_messages(
    order: ByteOrder,
    a: RuleContext,
    b: RuleContext,
    p: RuleOp,
    q: RuleOp,
    seq: u32,
)
    requires
        rule_message(order, a, p, seq) == rule_message(order, b, q, seq),
    ensures
        a == b,
        p.action == q.action,
        octets(p.addr) == octets(q.addr),
{
    rule_message_says_what_to_do(order, a, p, seq);
    rule_message_says_what_to_do(order, b, q, seq);
    match (p.action, q.action) {
        (RuleAction::Add, RuleAction::Delete) => {},
        (RuleAction::Delete, RuleAction::Add) => {},
        _ => {},
    }
}

// ---------------------------------------------------------------------------
// Dumps
// ---------------------------------------------------------------------------

/// A request for all rules, or for all addresses, of a family asks for just that, and for a dump.
pub proof fn dump_requests_say_what_is_wanted(order: ByteOrder, family: u8, seq: u32)
    ensures
        ({
            let m = rule_dump_message(order, family, seq);
            &&& m.len() == 28 && u32_at(order, m, 0) == 28
            &&& u16_at(order, m, 4) == 34
            &&& u16_at(order, m, 6) == 0x301
            &&& u32_at(order, m, 8) == seq
            &&& u32_at(order, m, 12) == 0
            &&& m[16] == family
            &&& forall|i: int| 17 <= i < 28 ==> m[i] == 0
        }),
        ({
            let m = addr_dump_message(order, family, seq);
            &&& m.len() == 24 && u32_at(order, m, 0) == 24
            &&& u16_at(order, m, 4) == 22
            &&& u16_at(order, m, 6) == 0x301
            &&& u32_at(order, m, 8) == seq
            &&& u32_at(order, m, 12) == 0
            &&& m[16] == family
            &&& forall|i: int| 17 <= i < 24 ==> m[i] == 0
        }),
{
    assert(0x1u16 | 0x300u16 == 0x301) by (bit_vector);
    let rtm = rtmsg_bytes(
        order,
        RtMsg {
            rtm_family: family,
            rtm_dst_len: 0,
            rtm_src_len: 0,
            rtm_tos: 0,
            rtm_table: 0,
            rtm_protocol: 0,
            rtm_scope: 0,
            rtm_type: 0,
            rtm_flags: 0,
        },
    );
    let ifa = ifaddrmsg_bytes(
        order,
        IfAddrMsg { ifa_family: family, ifa_prefixlen: 0, ifa_flags: 0, ifa_scope: 0, ifa_index: 0 },
    );
    header_reads_back(
        order,
        NetlinkHeader {
            nlmsg_len: 28,
            nlmsg_type: 34,
            nlmsg_flags: 0x301,
            nlmsg_seq: seq,
            nlmsg_pid: 0,
        },
        rtm,
    );
    header_reads_back(
        order,
        NetlinkHeader {
            nlmsg_len: 24,
            nlmsg_type: 22,
            nlmsg_flags: 0x301,
            nlmsg_seq: seq,
            nlmsg_pid: 0,
        },
        ifa,
    );
    let m = rule_dump_message(order, family, seq);
    let h = m.take(16);
    assert(m =~= h + rtm);
    let n = addr_dump_message(order, family, seq);
    assert(n =~= n.take(16) + ifa);
}

// ---------------------------------------------------------------------------
// Acknowledgements
// ---------------------------------------------------------------------------

/// An acknowledgement carries its error as a negative number: zero is success, and the negative
/// of an error number is that number.
pub proof fn acknowledged_errors_are_negated(order: ByteOrder, errno: i32, rest: Seq<u8>)
    requires
        errno > 0,
    ensures
        ack_errno(order, u32_bytes(order, 0) + rest) is None,
        ack_errno(order, u32_bytes(order, (0x1_0000_0000 - errno) as u32) + rest) == Some(errno),
        ack_error(order, u32_bytes(order, 0) + rest) is None,
        ack_error(order, u32_bytes(order, (0x1_0000_0000 - errno) as u32) + rest) matches Some(e)
            && e.errno == errno,
{
    let none = Seq::<u8>::empty();
    let code = (0x1_0000_0000 - errno) as u32;
    u32_reads_back(order, 0, none, rest);
    u32_reads_back(order, code, none, rest);
    assert(none + u32_bytes(order, 0) + rest =~= u32_bytes(order, 0) + rest);
    assert(none + u32_bytes(order, code) + rest =~= u32_bytes(order, code) + rest);
}

/// The place in the request that an acknowledgement complains of is read from the attributes
/// behind the copy of the request's header.
#[verifier::rlimit(40)]
pub proof fn acknowledged_offset_is_read(
    order: ByteOrder,
    errno: i32,
    copy: Seq<u8>,
    offset: u32,
)
    requires
        errno > 0,
        copy.len() == 16,
    ensures
        ack_error(
            order,
            u32_bytes(order, (0x1_0000_0000 - errno) as u32) + copy + nla_bytes(
                order,
                2,
                u32_bytes(order, offset),
            ),
        ) matches Some(e) && e.ext_offset == Some(offset) && e.ext_msg is None,
{
    let code = u32_bytes(order, (0x1_0000_0000 - errno) as u32);
    let value = u32_bytes(order, offset);
    let attr = nla_bytes(order, 2, value);
    let data = code + copy + attr;
    lemma_number_alone(order, offset);
    lemma_number_alone(order, (0x1_0000_0000 - errno) as u32);
    assert(ack_attrs(order, data) == seq![Nla { typ: 2, value }]) by {
        let none = Seq::<u8>::empty();
        nla_reads_back(order, 2, value, none);
        assert(data.subrange(20, data.len() as int) =~= attr + none);
        assert(nlas(order, none) =~= Seq::<Nla>::empty());
        assert(seq![Nla { typ: 2, value }] + Seq::<Nla>::empty() =~= seq![Nla { typ: 2, value }]);
    }
    assert(ack_errno(order, data) == Some(errno)) by {
        acknowledged_errors_are_negated(order, errno, copy + attr);
        assert(data =~= code + (copy + attr));
    }
    lemma_single_offset(order, value);
}

/// What a single attribute with a place says.
proof fn lemma_single_offset(order: ByteOrder, value: Seq<u8>)
    requires
        value.len() == 4,
    ensures
        last_offset(order, seq![Nla { typ: 2, value }]) == Some(u32_at(order, value, 0)),
        last_text(seq![Nla { typ: 2, value }]) is None,
{
    let one = seq![Nla { typ: 2, value }];
    assert(one.last() == Nla { typ: 2, value });
    assert(one.drop_last() =~= Seq::<Nla>::empty());
    assert(last_text(Seq::<Nla>::empty()) is None);
}

/// Only an acknowledgement without an error says that a change was made. A rule to add that was
/// there already, and a rule to delete that was gone already, are no failures; every other error
/// is one.
pub proof fn acknowledgements_mean_what_they_say(add: bool, errno: i32)
    ensures
        ack_class(add, None) == RuleAckClass::Applied,
        ack_class(add, Some(errno)) != RuleAckClass::Applied,
        ack_class(add, Some(errno)) == RuleAckClass::EexistNoop <==> add && errno == 17,
        ack_class(add, Some(errno)) == RuleAckClass::EnoentNoop <==> !add && (errno == 2 || errno
            == 3),
        ack_class(add, Some(errno)) == RuleAckClass::KernelErr <==> !(add && errno == 17) && !(!add
            && (errno == 2 || errno == 3)),
{
}

/// The first acknowledgement of a message counts, and counts for that message alone; a later one
/// changes nothing.
pub proof fn first_acknowledgement_counts(
    t: Tracker,
    i: int,
    j: int,
    first: Option<AckError>,
    second: Option<AckError>,
)
    requires
        t.seen.len() == t.status.len(),
        0 <= i < t.seen.len(),
        0 <= j < t.seen.len(),
        !t.seen[i],
    ensures
        ({
            let once = with_status(t, i, first);
            &&& once.seen[i] && once.status[i] == first
            &&& once.pending == t.pending - 1
            &&& j != i ==> once.seen[j] == t.seen[j] && once.status[j] == t.status[j]
            &&& with_status(once, i, second) == once
            &&& once.count_non_ack == t.count_non_ack
            &&& once.count_seq_mismatch == t.count_seq_mismatch
        }),
        with_status(t, t.seen.len() as int, first) == t,
        with_status(t, -1, first) == t,
{
}

/// A fresh tracker waits for every message and has seen none.
pub proof fn fresh_tracker_waits_for_all(n: nat, i: int)
    ensures
        fresh_tracker(n).pending == n,
        fresh_tracker(n).seen.len() == n,
        fresh_tracker(n).status.len() == n,
        0 <= i < n ==> !fresh_tracker(n).seen[i] && fresh_tracker(n).status[i] is None,
        fresh_tracker(n).count_non_ack == 0,
        fresh_tracker(n).count_seq_mismatch == 0,
{
}

/// The acknowledgement for the message at place `i` of a batch is noted at place `i`: success as
/// success, an error with its number. A message of another kind, or with a sequence number that is
/// none of the batch, is only counted.
pub proof fn acknowledgement_is_noted_at_its_place(
    order: ByteOrder,
    t: Tracker,
    first_seq: u32,
    batch_len: int,
    i: int,
    errno: i32,
    rest: Seq<u8>,
    m: Message,
)
    requires
        0 <= i < batch_len <= SEQ_SPAN,
        t.seen.len() == batch_len,
        t.status.len() == batch_len,
        !t.seen[i],
        errno > 0,
        m.header.nlmsg_seq == seq_after(first_seq, i),
    ensures
        m.header.nlmsg_type == 2 && m.data == u32_bytes(order, 0) + rest ==> {
            let after = after_message(order, t, m, first_seq, batch_len);
            after.seen[i] && after.status[i] is None && after.pending == t.pending - 1
        },
        m.header.nlmsg_type == 2 && m.data == u32_bytes(order, (0x1_0000_0000 - errno) as u32)
            + rest ==> {
            let after = after_message(order, t, m, first_seq, batch_len);
            after.seen[i] && after.status[i] is Some && after.status[i]->0.errno == errno
                && after.pending == t.pending - 1
        },
        m.header.nlmsg_type != 2 ==> {
            let after = after_message(order, t, m, first_seq, batch_len);
            after.seen == t.seen && after.status == t.status && after.pending == t.pending && (
            t.count_non_ack < usize::MAX ==> after.count_non_ack == t.count_non_ack + 1)
        },
{
    batch_index_inverts_offset(first_seq, i, batch_len);
    acknowledged_errors_are_negated(order, errno, rest);
}

/// A sequence number that none of the messages of a batch has is counted, and nothing else.
pub proof fn foreign_acknowledgement_is_counted(
    order: ByteOrder,
    t: Tracker,
    first_seq: u32,
    batch_len: int,
    m: Message,
)
    requires
        0 <= batch_len <= SEQ_SPAN,
        m.header.nlmsg_type == 2,
        forall|i: int|
            0 <= i < batch_len ==> m.header.nlmsg_seq != #[trigger] seq_after(first_seq, i),
    ensures
        ({
            let after = after_message(order, t, m, first_seq, batch_len);
            after.seen == t.seen && after.status == t.status && after.pending == t.pending
                && after.count_non_ack == t.count_non_ack && (t.count_seq_mismatch < usize::MAX
                ==> after.count_seq_mismatch == t.count_seq_mismatch + 1)
        }),
{
    batch_index_is_an_offset(m.header.nlmsg_seq, first_seq, batch_len);
    if let Some(i) = batch_index(m.header.nlmsg_seq, first_seq, batch_len) {
        assert(seq_after(first_seq, i) == m.header.nlmsg_seq);
    }
}

/// Where a sequence number has a place in a batch, the message at that place has the number.
pub proof fn batch_index_is_an_offset(seq: u32, first_seq: u32, batch_len: int)
    requires
        batch_len <= SEQ_SPAN,
    ensures
        batch_index(seq, first_seq, batch_len) matches Some(i) ==> 0 <= i < batch_len && seq_after(
            first_seq,
            i,
        ) == seq,
        seq == 0 ==> batch_index(seq, first_seq, batch_len) is None,
{
}

/// Sequence numbers follow one another, leave zero out, and start again at one.
pub proof fn sequence_numbers_follow_one_another(seq: u32)
    ensures
        seq_norm(seq) == if seq == 0 {
            1int
        } else {
            seq as int
        },
        seq_after(seq, 0) == seq_norm(seq),
        0 < seq < u32::MAX ==> seq_after(seq, 1) == seq + 1,
        seq_after(u32::MAX, 1) == 1,
        seq_after(0, 1) == 2,
{
}

/// A wait is given up for the one oddity that was seen; where none or both kinds were seen, time
/// ran out.
pub proof fn failed_waits_are_explained(t: Tracker)
    requires
        t.count_seq_mismatch >= 0,
        t.count_non_ack >= 0,
    ensures
        wait_error(t) == AckWaitErrorKind::SeqMismatch <==> t.count_seq_mismatch != 0
            && t.count_non_ack == 0,
        wait_error(t) == AckWaitErrorKind::NonAck <==> t.count_seq_mismatch == 0
            && t.count_non_ack != 0,
        wait_error(t) == AckWaitErrorKind::Timeout <==> (t.count_seq_mismatch == 0) == (
        t.count_non_ack == 0),
{
}

} // verus!
