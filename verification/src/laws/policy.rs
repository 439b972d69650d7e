//! What a request to route marked packets asks of the kernel, read back from its messages.
use crate::bytes::{u16_at, u32_at, u32_bytes, ByteOrder};
use crate::cli::{PbrAction, PbrFamily, PbrRequest};
use crate::laws::wire::{lemma_after_header, lemma_number_alone};
use crate::netlink::codec::{header_bytes, nla_bytes, nla_reads_back, nlas, nlas_error, Item, Nla};
use crate::netlink::linux_types::{rtmsg_bytes, RtMsg};
use crate::netlink::pbr::{
    ack_search, pbr_ack_class, pbr_message_lengths, pbr_route_body, pbr_route_header,
    pbr_route_message, pbr_rule_body, pbr_rule_header, pbr_rule_message, start_of, step_after,
    step_message, AckSearch, PbrAckClass, PbrOp, PbrStep,
};
use vstd::prelude::*;

verus! {

// ---------------------------------------------------------------------------
// Messages
// ---------------------------------------------------------------------------

/// Whether an attribute holds a number of four bytes.
pub open spec fn holds(order: ByteOrder, a: Nla, typ: u16, value: u32) -> bool {
    a.typ == typ && a.value.len() == 4 && u32_at(order, a.value, 0) == value
}

/// The family of a request, as the kernel numbers it.
pub open spec fn kernel_family(family: PbrFamily) -> u8 {
    match family {
        PbrFamily::Ipv4 => 2,
        PbrFamily::Ipv6 => 10,
    }
}

/// One more attribute in front of others.
proof fn lemma_attr_in_front(order: ByteOrder, typ: u16, v: u32, rest: Seq<u8>)
    ensures
        nlas(order, nla_bytes(order, typ, u32_bytes(order, v)) + rest).len() == nlas(
            order,
            rest,
        ).len() + 1,
        holds(order, nlas(order, nla_bytes(order, typ, u32_bytes(order, v)) + rest)[0], typ, v),
        nlas(order, nla_bytes(order, typ, u32_bytes(order, v)) + rest).skip(1) == nlas(
            order,
            rest,
        ),
        nlas_error(order, nla_bytes(order, typ, u32_bytes(order, v)) + rest) == nlas_error(
            order,
            rest,
        ),
{
    let value = u32_bytes(order, v);
    lemma_number_alone(order, v);
    nla_reads_back(order, typ, value, rest);
    let all = seq![Nla { typ, value }] + nlas(order, rest);
    assert(all.skip(1) =~= nlas(order, rest));
}

/// The last attribute.
proof fn lemma_attr_alone(order: ByteOrder, typ: u16, v: u32)
    ensures
        nlas(order, nla_bytes(order, typ, u32_bytes(order, v))).len() == 1,
        holds(order, nlas(order, nla_bytes(order, typ, u32_bytes(order, v)))[0], typ, v),
        nlas_error(order, nla_bytes(order, typ, u32_bytes(order, v))) is None,
{
    let none = Seq::<u8>::empty();
    lemma_attr_in_front(order, typ, v, none);
    assert(nla_bytes(order, typ, u32_bytes(order, v)) + none =~= nla_bytes(
        order,
        typ,
        u32_bytes(order, v),
    ));
}

/// A body and what follows it.
proof fn lemma_after_body(order: ByteOrder, body: RtMsg, rest: Seq<u8>)
    ensures
        ({
            let data = rtmsg_bytes(order, body) + rest;
            &&& data.len() == 12 + rest.len()
            &&& data[0] == body.rtm_family && data[1] == body.rtm_dst_len
            &&& data[2] == body.rtm_src_len && data[3] == body.rtm_tos
            &&& data[4] == body.rtm_table && data[5] == body.rtm_protocol
            &&& data[6] == body.rtm_scope && data[7] == body.rtm_type
            &&& u32_at(order, data, 8) == body.rtm_flags
            &&& data.skip(12) == rest
        }),
{
    lemma_number_alone(order, body.rtm_flags);
    let data = rtmsg_bytes(order, body) + rest;
    let flags = u32_bytes(order, body.rtm_flags);
    assert(data[8] == flags[0] && data[9] == flags[1] && data[10] == flags[2] && data[11]
        == flags[3]);
    assert(data.skip(12) =~= rest);
}

/// The bytes of the attributes of a rule.
spec fn rule_attrs(order: ByteOrder, mark: u32, mask: u32, pref: u32, table: u32) -> Seq<u8> {
    nla_bytes(order, 10, u32_bytes(order, mark)) + (nla_bytes(order, 16, u32_bytes(order, mask))
        + (nla_bytes(order, 6, u32_bytes(order, pref)) + nla_bytes(
        order,
        15,
        u32_bytes(order, table),
    )))
}

/// The attributes of a rule are read back.
#[verifier::rlimit(40)]
proof fn lemma_rule_attrs(order: ByteOrder, mark: u32, mask: u32, pref: u32, table: u32)
    ensures
        ({
            let attrs = nlas(order, rule_attrs(order, mark, mask, pref, table));
            &&& attrs.len() == 4
            &&& nlas_error(order, rule_attrs(order, mark, mask, pref, table)) is None
            &&& holds(order, attrs[0], 10, mark)
            &&& holds(order, attrs[1], 16, mask)
            &&& holds(order, attrs[2], 6, pref)
            &&& holds(order, attrs[3], 15, table)
        }),
{
    let a1 = nla_bytes(order, 16, u32_bytes(order, mask));
    let a2 = nla_bytes(order, 6, u32_bytes(order, pref));
    let a3 = nla_bytes(order, 15, u32_bytes(order, table));
    lemma_attr_alone(order, 15, table);
    lemma_attr_in_front(order, 6, pref, a3);
    lemma_attr_in_front(order, 16, mask, a2 + a3);
    lemma_attr_in_front(order, 10, mark, a1 + (a2 + a3));
    let all = nlas(order, rule_attrs(order, mark, mask, pref, table));
    assert(all.skip(1)[0] == all[1] && all.skip(1)[1] == all[2] && all.skip(1)[2] == all[3]);
    let three = nlas(order, a1 + (a2 + a3));
    assert(three.skip(1)[0] == three[1] && three.skip(1)[1] == three[2]);
    let two = nlas(order, a2 + a3);
    assert(two.skip(1)[0] == two[1]);
}

/// A rule message is its header, its body and its attributes.
proof fn lemma_rule_parts(
    order: ByteOrder,
    nlmsg_type: u16,
    family: u8,
    mark: u32,
    mask: u32,
    table: u32,
    pref: u32,
    seq: u32,
)
    ensures
        pbr_rule_message(order, nlmsg_type, family, mark, mask, table, pref, seq) == header_bytes(
            order,
            pbr_rule_header(nlmsg_type, seq),
        ) + (rtmsg_bytes(order, pbr_rule_body(family, table)) + rule_attrs(
            order,
            mark,
            mask,
            pref,
            table,
        )),
{
    let h = header_bytes(order, pbr_rule_header(nlmsg_type, seq));
    let b = rtmsg_bytes(order, pbr_rule_body(family, table));
    let a0 = nla_bytes(order, 10, u32_bytes(order, mark));
    let a1 = nla_bytes(order, 16, u32_bytes(order, mask));
    let a2 = nla_bytes(order, 6, u32_bytes(order, pref));
    let a3 = nla_bytes(order, 15, u32_bytes(order, table));
    lemma_same_bytes(h, b, a0, a1, a2, a3);
}

/// Six pieces, put together from either side.
proof fn lemma_same_bytes(
    h: Seq<u8>,
    b: Seq<u8>,
    a0: Seq<u8>,
    a1: Seq<u8>,
    a2: Seq<u8>,
    a3: Seq<u8>,
)
    ensures
        h + b + a0 + a1 + a2 + a3 == h + (b + (a0 + (a1 + (a2 + a3)))),
{
    assert(h + b + a0 + a1 + a2 + a3 =~= h + (b + (a0 + (a1 + (a2 + a3)))));
}

/// The numbers of a rule message are read back as its attributes.
#[verifier::rlimit(40)]
proof fn lemma_rule_message(
    order: ByteOrder,
    nlmsg_type: u16,
    family: u8,
    mark: u32,
    mask: u32,
    table: u32,
    pref: u32,
    seq: u32,
)
    ensures
        ({
            let m = pbr_rule_message(order, nlmsg_type, family, mark, mask, table, pref, seq);
            let h = pbr_rule_header(nlmsg_type, seq);
            let b = pbr_rule_body(family, table);
            let attrs = nlas(order, m.skip(28));
            &&& m.len() == 60
            &&& u32_at(order, m, 0) == h.nlmsg_len
            &&& u16_at(order, m, 4) == h.nlmsg_type
            &&& u16_at(order, m, 6) == h.nlmsg_flags
            &&& u32_at(order, m, 8) == h.nlmsg_seq
            &&& m[16] == b.rtm_family && m[17] == b.rtm_dst_len && m[18] == b.rtm_src_len
            &&& m[19] == b.rtm_tos && m[20] == b.rtm_table && m[21] == b.rtm_protocol
            &&& m[22] == b.rtm_scope && m[23] == b.rtm_type
            &&& u32_at(order, m, 12) == h.nlmsg_pid && u32_at(order, m, 24) == b.rtm_flags
            &&& attrs.len() == 4
            &&& nlas_error(order, m.skip(28)) is None
            &&& holds(order, attrs[0], 10, mark)
            &&& holds(order, attrs[1], 16, mask)
            &&& holds(order, attrs[2], 6, pref)
            &&& holds(order, attrs[3], 15, table)
        }),
{
    let h = pbr_rule_header(nlmsg_type, seq);
    let b = pbr_rule_body(family, table);
    let rest = rule_attrs(order, mark, mask, pref, table);
    let data = rtmsg_bytes(order, b) + rest;
    lemma_rule_parts(order, nlmsg_type, family, mark, mask, table, pref, seq);
    lemma_rule_attrs(order, mark, mask, pref, table);
    lemma_after_body(order, b, rest);
    lemma_after_header(order, h, data);
    pbr_message_lengths(order, nlmsg_type, family, mark, mask, table, pref, 0, seq);
}

/// The bytes of the attributes of a route.
spec fn route_attrs(order: ByteOrder, oif: u32, table: u32) -> Seq<u8> {
    nla_bytes(order, 4, u32_bytes(order, oif)) + nla_bytes(order, 15, u32_bytes(order, table))
}

/// The attributes of a route are read back.
proof fn lemma_route_attrs(order: ByteOrder, oif: u32, table: u32)
    ensures
        ({
            let attrs = nlas(order, route_attrs(order, oif, table));
            &&& attrs.len() == 2
            &&& nlas_error(order, route_attrs(order, oif, table)) is None
            &&& holds(order, attrs[0], 4, oif)
            &&& holds(order, attrs[1], 15, table)
        }),
{
    lemma_attr_alone(order, 15, table);
    lemma_attr_in_front(order, 4, oif, nla_bytes(order, 15, u32_bytes(order, table)));
    let all = nlas(order, route_attrs(order, oif, table));
    assert(all.skip(1)[0] == all[1]);
}

/// A route message is its header, its body and its attributes.
proof fn lemma_route_parts(
    order: ByteOrder,
    nlmsg_type: u16,
    family: u8,
    table: u32,
    oif: u32,
    seq: u32,
)
    ensures
        pbr_route_message(order, nlmsg_type, family, table, oif, seq) == header_bytes(
            order,
            pbr_route_header(nlmsg_type, seq),
        ) + (rtmsg_bytes(order, pbr_route_body(family, table)) + route_attrs(order, oif, table)),
{
    let h = header_bytes(order, pbr_route_header(nlmsg_type, seq));
    let b = rtmsg_bytes(order, pbr_route_body(family, table));
    let a0 = nla_bytes(order, 4, u32_bytes(order, oif));
    let a1 = nla_bytes(order, 15, u32_bytes(order, table));
    lemma_same_four(h, b, a0, a1);
}

/// Four pieces, put together from either side.
proof fn lemma_same_four(h: Seq<u8>, b: Seq<u8>, a0: Seq<u8>, a1: Seq<u8>)
    ensures
        h + b + a0 + a1 == h + (b + (a0 + a1)),
{
    assert(h + b + a0 + a1 =~= h + (b + (a0 + a1)));
}

/// The numbers of a route message are read back as its attributes.
#[verifier::rlimit(40)]
proof fn lemma_route_message(
    order: ByteOrder,
    nlmsg_type: u16,
    family: u8,
    table: u32,
    oif: u32,
    seq: u32,
)
    ensures
        ({
            let m = pbr_route_message(order, nlmsg_type, family, table, oif, seq);
            let h = pbr_route_header(nlmsg_type, seq);
            let b = pbr_route_body(family, table);
            let attrs = nlas(order, m.skip(28));
            &&& m.len() == 44
            &&& u32_at(order, m, 0) == h.nlmsg_len
            &&& u16_at(order, m, 4) == h.nlmsg_type
            &&& u16_at(order, m, 6) == h.nlmsg_flags
            &&& u32_at(order, m, 8) == h.nlmsg_seq
            &&& m[16] == b.rtm_family && m[17] == b.rtm_dst_len && m[18] == b.rtm_src_len
            &&& m[19] == b.rtm_tos && m[20] == b.rtm_table && m[21] == b.rtm_protocol
            &&& m[22] == b.rtm_scope && m[23] == b.rtm_type
            &&& u32_at(order, m, 12) == h.nlmsg_pid && u32_at(order, m, 24) == b.rtm_flags
            &&& attrs.len() == 2
            &&& nlas_error(order, m.skip(28)) is None
            &&& holds(order, attrs[0], 4, oif)
            &&& holds(order, attrs[1], 15, table)
        }),
{
    let h = pbr_route_header(nlmsg_type, seq);
    let b = pbr_route_body(family, table);
    let rest = route_attrs(order, oif, table);
    let data = rtmsg_bytes(order, b) + rest;
    lemma_route_parts(order, nlmsg_type, family, table, oif, seq);
    lemma_route_attrs(order, oif, table);
    lemma_after_body(order, b, rest);
    lemma_after_header(order, h, data);
    pbr_message_lengths(order, nlmsg_type, family, 0, 0, table, 0, oif, seq);
}

/// Whether a message, read back, is about a rule: it asks for `change`, with `flags`, of the rule
/// of the request. Its attributes are one for the mark, one for the mask, one for the priority and
/// one for the table, and no others.
pub open spec fn is_about_rule(
    order: ByteOrder,
    m: Seq<u8>,
    request: PbrRequest,
    change: u16,
    flags: u16,
    seq: u32,
) -> bool {
    let attrs = nlas(order, m.skip(28));
    &&& m.len() == 60
    &&& u32_at(order, m, 0) == 60
    &&& u16_at(order, m, 4) == change
    &&& u16_at(order, m, 6) == flags
    &&& u32_at(order, m, 8) == seq
    &&& m[16] == kernel_family(request.family)
    &&& m[17] == 0 && m[18] == 0 && m[19] == 0
    &&& m[20] == if request.table < 256 {
        request.table as int
    } else {
        0
    }
    &&& m[21] == 3 && m[22] == 0 && m[23] == 1
    &&& u32_at(order, m, 12) == 0 && u32_at(order, m, 24) == 0
    &&& attrs.len() == 4
    &&& nlas_error(order, m.skip(28)) is None
    &&& holds(order, attrs[0], 10, request.mark)
    &&& holds(order, attrs[1], 16, request.mask)
    &&& holds(order, attrs[2], 6, request.pref)
    &&& holds(order, attrs[3], 15, request.table)
}

/// Whether a message, read back, is about a route: it asks for `change`, with `flags`, of the
/// route to everything, through the given interface, in the table of the request, as local.
pub open spec fn is_about_route(
    order: ByteOrder,
    m: Seq<u8>,
    request: PbrRequest,
    oif: u32,
    change: u16,
    flags: u16,
    seq: u32,
) -> bool {
    let attrs = nlas(order, m.skip(28));
    &&& m.len() == 44
    &&& u32_at(order, m, 0) == 44
    &&& u16_at(order, m, 4) == change
    &&& u16_at(order, m, 6) == flags
    &&& u32_at(order, m, 8) == seq
    &&& m[16] == kernel_family(request.family)
    &&& m[17] == 0 && m[18] == 0 && m[19] == 0
    &&& m[20] == if request.table < 256 {
        request.table as int
    } else {
        0
    }
    &&& m[21] == 3 && m[22] == 254 && m[23] == 2
    &&& u32_at(order, m, 12) == 0 && u32_at(order, m, 24) == 0
    &&& attrs.len() == 2
    &&& nlas_error(order, m.skip(28)) is None
    &&& holds(order, attrs[0], 4, oif)
    &&& holds(order, attrs[1], 15, request.table)
}

/// The step that adds a rule, and every step that deletes one, name the same rule: the one with
/// the mark, the mask, the priority and the table of the request. The one asks for a rule that is
/// not there yet, the other deletes.
#[verifier::rlimit(40)]
pub proof fn rule_steps_name_the_rule_of_the_request(
    order: ByteOrder,
    request: PbrRequest,
    n: usize,
    oif: u32,
    seq: u32,
)
    ensures
        ({
            let added = step_message(order, request, PbrStep::AddRule, oif, seq);
            let deleted = step_message(order, request, PbrStep::DeleteRule(n), oif, seq);
            &&& added is Some && deleted is Some
            &&& added.unwrap().0 == PbrOp::AddRule && deleted.unwrap().0 == PbrOp::DeleteRule
            &&& is_about_rule(order, added.unwrap().1, request, 32, 0x605, seq)
            &&& is_about_rule(order, deleted.unwrap().1, request, 33, 0x5, seq)
        }),
{
    let f = kernel_family(request.family);
    assert(0x1u16 | 0x4u16 | (0x400u16 | 0x200u16) == 0x605) by (bit_vector);
    assert(0x1u16 | 0x4u16 == 0x5) by (bit_vector);
    lemma_rule_message(
        order,
        32,
        f,
        request.mark,
        request.mask,
        request.table,
        request.pref,
        seq,
    );
    lemma_rule_message(
        order,
        33,
        f,
        request.mark,
        request.mask,
        request.table,
        request.pref,
        seq,
    );
}

/// The step that sets the route and the step that deletes it name the same route. The one replaces
/// what is there, the other deletes.
#[verifier::rlimit(40)]
pub proof fn route_steps_name_the_route_of_the_request(
    order: ByteOrder,
    request: PbrRequest,
    oif: u32,
    seq: u32,
)
    ensures
        ({
            let set = step_message(order, request, PbrStep::ReplaceRoute, oif, seq);
            let deleted = step_message(order, request, PbrStep::DeleteRoute, oif, seq);
            &&& set is Some && deleted is Some
            &&& set.unwrap().0 == PbrOp::ReplaceRoute && deleted.unwrap().0 == PbrOp::DeleteRoute
            &&& is_about_route(order, set.unwrap().1, request, oif, 24, 0x505, seq)
            &&& is_about_route(order, deleted.unwrap().1, request, oif, 25, 0x5, seq)
        }),
{
    let f = kernel_family(request.family);
    assert(0x1u16 | 0x4u16 | (0x400u16 | 0x100u16) == 0x505) by (bit_vector);
    assert(0x1u16 | 0x4u16 == 0x5) by (bit_vector);
    lemma_route_message(order, 24, f, request.table, oif, seq);
    lemma_route_message(order, 25, f, request.table, oif, seq);
}

/// A request that is done asks for nothing.
pub proof fn finished_request_sends_nothing(
    order: ByteOrder,
    request: PbrRequest,
    oif: u32,
    seq: u32,
)
    ensures
        step_message(order, request, PbrStep::Finished, oif, seq) is None,
        start_of(PbrAction::Status) == PbrStep::Finished,
{
}

// ---------------------------------------------------------------------------
// Acknowledgements
// ---------------------------------------------------------------------------

/// A change is made where the kernel reports no error. It was not needed where what is to be added
/// exists (17), or where what is to be deleted does not (2, 3). Every other error is a refusal.
pub proof fn policy_acknowledgements_mean_what_they_say(op: PbrOp, code: i32)
    ensures
        pbr_ack_class(op, None) == PbrAckClass::Applied,
        pbr_ack_class(op, Some(code)) != PbrAckClass::Applied,
        op == PbrOp::AddRule || op == PbrOp::ReplaceRoute ==> (pbr_ack_class(op, Some(code))
            == PbrAckClass::Noop <==> code == 17),
        op == PbrOp::DeleteRule || op == PbrOp::DeleteRoute ==> (pbr_ack_class(op, Some(code))
            == PbrAckClass::Noop <==> code == 2 || code == 3),
{
}

/// The acknowledgement of a change is the first error message under its number; nothing under
/// another number, and nothing else, is taken for one; and once it has come, nothing later changes
/// it.
pub proof fn first_policy_acknowledgement_counts(
    order: ByteOrder,
    received: Seq<Item>,
    seq: u32,
    op: PbrOp,
    item: Item,
)
    ensures
        ack_search(order, Seq::empty(), seq, op) is NotYet,
        ack_search(order, received, seq, op) !is NotYet ==> ack_search(
            order,
            received.push(item),
            seq,
            op,
        ) == ack_search(order, received, seq, op),
        ack_search(order, received, seq, op) is NotYet ==> ({
            let after = ack_search(order, received.push(item), seq, op);
            match item {
                Item::Error(e) => after == AckSearch::Fail(e),
                Item::Message(m) => {
                    &&& after is NotYet <==> m.header.nlmsg_seq != seq || m.header.nlmsg_type != 2
                    &&& after is Fail <==> m.header.nlmsg_seq == seq && m.header.nlmsg_type == 2
                        && m.data.len() < 4
                    &&& after matches AckSearch::Found(class) ==> (class == PbrAckClass::Applied
                        <==> u32_at(order, m.data, 0) == 0)
                },
            }
        }),
{
    let all = received.push(item);
    assert(all.drop_last() =~= received);
    assert(all.last() == item);
}

// ---------------------------------------------------------------------------
// Requests
// ---------------------------------------------------------------------------

/// Whether a request went through the steps, each with its acknowledgement.
pub open spec fn is_run(
    action: PbrAction,
    steps: Seq<PbrStep>,
    classes: Seq<PbrAckClass>,
) -> bool {
    &&& steps.len() == classes.len() + 1
    &&& steps[0] == start_of(action)
    &&& forall|i: int|
        #![trigger classes[i]]
        0 <= i < classes.len() ==> steps[i] != PbrStep::Finished && step_after(
            action,
            steps[i],
            classes[i],
        ) == Some(steps[i + 1])
}

/// What a step says of the steps before it.
proof fn lemma_steps_before(
    action: PbrAction,
    steps: Seq<PbrStep>,
    classes: Seq<PbrAckClass>,
    i: int,
)
    requires
        is_run(action, steps, classes),
        0 <= i <= classes.len(),
        action != PbrAction::Status,
    ensures
        match steps[i] {
            PbrStep::DeleteRule(k) => {
                &&& k == i && i < 32
                &&& forall|j: int|
                    #![trigger steps[j]]
                    0 <= j < i ==> steps[j] == PbrStep::DeleteRule(j as usize) && classes[j]
                        != PbrAckClass::Noop
            },
            PbrStep::DeleteRoute => {
                &&& 1 <= i <= 32
                &&& forall|j: int|
                    #![trigger steps[j]]
                    0 <= j < i ==> steps[j] == PbrStep::DeleteRule(j as usize)
                &&& forall|j: int|
                    #![trigger steps[j]]
                    0 <= j < i - 1 ==> classes[j] != PbrAckClass::Noop
                &&& classes[i - 1] == PbrAckClass::Noop || i == 32
            },
            PbrStep::ReplaceRoute => i >= 1 && steps[i - 1] == PbrStep::DeleteRoute && action
                == PbrAction::Apply && classes[i - 1] != PbrAckClass::KernelErr,
            PbrStep::AddRule => i >= 1 && steps[i - 1] == PbrStep::ReplaceRoute && classes[i - 1]
                != PbrAckClass::KernelErr,
            PbrStep::Finished => i >= 1 && classes[i - 1] != PbrAckClass::KernelErr && (steps[i
                - 1] == PbrStep::AddRule || steps[i - 1] == PbrStep::DeleteRoute && action
                == PbrAction::Cleanup),
        },
    decreases i,
{
    if i > 0 {
        lemma_steps_before(action, steps, classes, i - 1);
        let c = classes[i - 1];
        assert(step_after(action, steps[i - 1], c) == Some(steps[i - 1 + 1]));
    }
}

/// A request to route that is done has, in this order, deleted rules until there was none left, at
/// most 32 times, deleted the route, set the route and added the rule, and the kernel has refused
/// none of the last three.
pub proof fn applied_request_ends_with_route_and_rule(
    steps: Seq<PbrStep>,
    classes: Seq<PbrAckClass>,
)
    requires
        is_run(PbrAction::Apply, steps, classes),
        steps.last() == PbrStep::Finished,
    ensures
        ({
            let n = classes.len() as int;
            &&& 4 <= n <= 35
            &&& steps[n - 1] == PbrStep::AddRule && classes[n - 1] != PbrAckClass::KernelErr
            &&& steps[n - 2] == PbrStep::ReplaceRoute && classes[n - 2] != PbrAckClass::KernelErr
            &&& steps[n - 3] == PbrStep::DeleteRoute && classes[n - 3] != PbrAckClass::KernelErr
            &&& forall|j: int|
                #![trigger steps[j]]
                0 <= j < n - 3 ==> steps[j] == PbrStep::DeleteRule(j as usize)
            &&& forall|j: int|
                #![trigger steps[j]]
                0 <= j < n - 4 ==> classes[j] != PbrAckClass::Noop
            &&& classes[n - 4] == PbrAckClass::Noop || n == 35
        }),
{
    let n = classes.len() as int;
    lemma_steps_before(PbrAction::Apply, steps, classes, n);
    lemma_steps_before(PbrAction::Apply, steps, classes, n - 1);
    lemma_steps_before(PbrAction::Apply, steps, classes, n - 2);
    lemma_steps_before(PbrAction::Apply, steps, classes, n - 3);
}

/// A request to clean up that is done has deleted rules until there was none left, at most 32
/// times, and then the route, and has added nothing.
pub proof fn cleanup_request_only_deletes(steps: Seq<PbrStep>, classes: Seq<PbrAckClass>)
    requires
        is_run(PbrAction::Cleanup, steps, classes),
        steps.last() == PbrStep::Finished,
    ensures
        ({
            let n = classes.len() as int;
            &&& 2 <= n <= 33
            &&& steps[n - 1] == PbrStep::DeleteRoute && classes[n - 1] != PbrAckClass::KernelErr
            &&& forall|j: int|
                #![trigger steps[j]]
                0 <= j < n - 1 ==> steps[j] == PbrStep::DeleteRule(j as usize)
            &&& forall|j: int|
                #![trigger steps[j]]
                0 <= j < n - 2 ==> classes[j] != PbrAckClass::Noop
            &&& classes[n - 2] == PbrAckClass::Noop || n == 33
        }),
{
    let n = classes.len() as int;
    lemma_steps_before(PbrAction::Cleanup, steps, classes, n);
    lemma_steps_before(PbrAction::Cleanup, steps, classes, n - 1);
    if steps[n - 1] == PbrStep::AddRule {
        lemma_steps_before(PbrAction::Cleanup, steps, classes, n - 2);
    }
}

/// A request fails exactly where the kernel refuses to delete the route, to set it or to add the
/// rule; what it says of deleting a rule is no reason to fail.
pub proof fn refused_steps_end_a_request(action: PbrAction, step: PbrStep, class: PbrAckClass)
    ensures
        step_after(action, step, class) is None <==> class == PbrAckClass::KernelErr && (step
            == PbrStep::DeleteRoute || step == PbrStep::ReplaceRoute || step == PbrStep::AddRule),
{
}

} // verus!
