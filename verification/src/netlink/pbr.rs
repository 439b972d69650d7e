//! Rules and routes for marked packets.
use crate::bytes::{low_byte, low_byte_of, u32_bytes, ByteOrder};
use crate::cli::{family_number, PbrAction, PbrRequest};
use crate::error::{AppError, ErrorView};
use crate::netlink::codec::{
    ack_error, append_nla_u32, header_bytes, item_view, next_seq, nla_bytes,
    parse_ack_error_info, push_header, seq_after, seq_norm, AckErrorInfo, Item, NetlinkHeader,
    FRA_ATTR_PRIORITY, FRA_ATTR_TABLE,
};
use crate::netlink::linux_types::{push_rtmsg, rtmsg_bytes, RtMsg};
use crate::netlink::socket::{collect_messages, item_views, packet_items, MmsgRxRing};
use crate::sys::{
    AF_INET, AF_INET6, EEXIST, ENOENT, ESRCH, NLMSG_ERROR, NLM_F_ACK, NLM_F_CREATE, NLM_F_EXCL,
    NLM_F_REPLACE, NLM_F_REQUEST, RTM_DELROUTE, RTM_DELRULE, RTM_NEWROUTE, RTM_NEWRULE, RTN_LOCAL,
    RTN_UNICAST, RTPROT_BOOT, RT_SCOPE_HOST, RT_SCOPE_UNIVERSE,
};
use crate::text::{dec, numeral, push_dec, push_numeral};
use vstd::prelude::*;

verus! {

pub const FRA_ATTR_FWMARK: u16 = 10;
pub const FRA_ATTR_FWMASK: u16 = 16;
pub const RTA_ATTR_OIF: u16 = 4;

/// How long an acknowledgement is waited for, in nanoseconds.
pub const PBR_ACK_TIMEOUT: u64 = 5_000_000_000;

/// How many rules of one kind are deleted at most.
pub const DELETE_RULE_LIMIT: usize = 32;

// ---------------------------------------------------------------------------
// Messages
// ---------------------------------------------------------------------------

/// The byte that the body has for a table; zero where the table does not fit one.
pub open spec fn table_byte(table: u32) -> u8 {
    if table <= 255 {
        table as u8
    } else {
        0
    }
}

/// The header of a message for a rule for marked packets.
pub open spec fn pbr_rule_header(nlmsg_type: u16, seq: u32) -> NetlinkHeader {
    NetlinkHeader {
        nlmsg_len: 60,
        nlmsg_type,
        nlmsg_flags: if nlmsg_type == RTM_NEWRULE {
            NLM_F_REQUEST | NLM_F_ACK | (NLM_F_CREATE | NLM_F_EXCL)
        } else {
            NLM_F_REQUEST | NLM_F_ACK
        },
        nlmsg_seq: seq,
        nlmsg_pid: 0,
    }
}

/// The body of a message for a rule for marked packets.
pub open spec fn pbr_rule_body(family: u8, table: u32) -> RtMsg {
    RtMsg {
        rtm_family: family,
        rtm_dst_len: 0,
        rtm_src_len: 0,
        rtm_tos: 0,
        rtm_table: table_byte(table),
        rtm_protocol: RTPROT_BOOT,
        rtm_scope: RT_SCOPE_UNIVERSE,
        rtm_type: RTN_UNICAST,
        rtm_flags: 0,
    }
}

/// The message for a rule for marked packets: mark, mask, priority and table.
pub open spec fn pbr_rule_message(
    order: ByteOrder,
    nlmsg_type: u16,
    family: u8,
    mark: u32,
    mask: u32,
    table: u32,
    pref: u32,
    seq: u32,
) -> Seq<u8> {
    header_bytes(order, pbr_rule_header(nlmsg_type, seq)) + rtmsg_bytes(
        order,
        pbr_rule_body(family, table),
    ) + nla_bytes(order, FRA_ATTR_FWMARK, u32_bytes(order, mark)) + nla_bytes(
        order,
        FRA_ATTR_FWMASK,
        u32_bytes(order, mask),
    ) + nla_bytes(order, FRA_ATTR_PRIORITY, u32_bytes(order, pref)) + nla_bytes(
        order,
        FRA_ATTR_TABLE,
        u32_bytes(order, table),
    )
}

/// The header of a message for a route.
pub open spec fn pbr_route_header(nlmsg_type: u16, seq: u32) -> NetlinkHeader {
    NetlinkHeader {
        nlmsg_len: 44,
        nlmsg_type,
        nlmsg_flags: if nlmsg_type == RTM_NEWROUTE {
            NLM_F_REQUEST | NLM_F_ACK | (NLM_F_CREATE | NLM_F_REPLACE)
        } else {
            NLM_F_REQUEST | NLM_F_ACK
        },
        nlmsg_seq: seq,
        nlmsg_pid: 0,
    }
}

/// The body of a message for a local default route.
pub open spec fn pbr_route_body(family: u8, table: u32) -> RtMsg {
    RtMsg {
        rtm_family: family,
        rtm_dst_len: 0,
        rtm_src_len: 0,
        rtm_tos: 0,
        rtm_table: table_byte(table),
        rtm_protocol: RTPROT_BOOT,
        rtm_scope: RT_SCOPE_HOST,
        rtm_type: RTN_LOCAL,
        rtm_flags: 0,
    }
}

/// The message for a local default route: interface and table.
pub open spec fn pbr_route_message(
    order: ByteOrder,
    nlmsg_type: u16,
    family: u8,
    table: u32,
    oif: u32,
    seq: u32,
) -> Seq<u8> {
    header_bytes(order, pbr_route_header(nlmsg_type, seq)) + rtmsg_bytes(
        order,
        pbr_route_body(family, table),
    ) + nla_bytes(order, RTA_ATTR_OIF, u32_bytes(order, oif)) + nla_bytes(
        order,
        FRA_ATTR_TABLE,
        u32_bytes(order, table),
    )
}

/// Both messages are as long as their headers say, and need no padding.
pub proof fn pbr_message_lengths(
    order: ByteOrder,
    nlmsg_type: u16,
    family: u8,
    mark: u32,
    mask: u32,
    table: u32,
    pref: u32,
    oif: u32,
    seq: u32,
)
    ensures
        pbr_rule_message(order, nlmsg_type, family, mark, mask, table, pref, seq).len() == 60,
        pbr_route_message(order, nlmsg_type, family, table, oif, seq).len() == 44,
{
}

/// Starts a message with its header and body.
fn start_rt_message(order: ByteOrder, header: NetlinkHeader, rtm: RtMsg) -> (r: Vec<u8>)
    ensures
        r@ == header_bytes(order, header) + rtmsg_bytes(order, rtm),
        r@.len() == 28,
{
    let mut msg: Vec<u8> = Vec::with_capacity(128);
    push_header(order, &mut msg, header);
    push_rtmsg(order, &mut msg, rtm);
    assert(msg@ =~= header_bytes(order, header) + rtmsg_bytes(order, rtm));
    msg
}

/// Builds the message for a rule for marked packets.
pub fn build_pbr_rule_message(
    order: ByteOrder,
    nlmsg_type: u16,
    family: i32,
    mark: u32,
    mask: u32,
    table: u32,
    pref: u32,
    seq: u32,
) -> (r: Vec<u8>)
    ensures
        r@ == pbr_rule_message(order, nlmsg_type, low_byte(family), mark, mask, table, pref, seq),
{
    let mut nlmsg_flags: u16 = NLM_F_REQUEST | NLM_F_ACK;
    if nlmsg_type == RTM_NEWRULE {
        nlmsg_flags = nlmsg_flags | (NLM_F_CREATE | NLM_F_EXCL);
    }
    let header = NetlinkHeader {
        nlmsg_len: 60,
        nlmsg_type,
        nlmsg_flags,
        nlmsg_seq: seq,
        nlmsg_pid: 0,
    };
    let rtm = RtMsg {
        rtm_family: low_byte_of(family),
        rtm_dst_len: 0,
        rtm_src_len: 0,
        rtm_tos: 0,
        rtm_table: if table <= 255 {
            table as u8
        } else {
            0
        },
        rtm_protocol: RTPROT_BOOT,
        rtm_scope: RT_SCOPE_UNIVERSE,
        rtm_type: RTN_UNICAST,
        rtm_flags: 0,
    };
    let mut msg = start_rt_message(order, header, rtm);
    append_nla_u32(order, &mut msg, FRA_ATTR_FWMARK, mark);
    append_nla_u32(order, &mut msg, FRA_ATTR_FWMASK, mask);
    append_nla_u32(order, &mut msg, FRA_ATTR_PRIORITY, pref);
    append_nla_u32(order, &mut msg, FRA_ATTR_TABLE, table);
    msg
}

/// Builds the message for a local default route.
pub fn build_pbr_route_message(
    order: ByteOrder,
    nlmsg_type: u16,
    family: i32,
    table: u32,
    oif: u32,
    seq: u32,
) -> (r: Vec<u8>)
    ensures
        r@ == pbr_route_message(order, nlmsg_type, low_byte(family), table, oif, seq),
{
    let mut nlmsg_flags: u16 = NLM_F_REQUEST | NLM_F_ACK;
    if nlmsg_type == RTM_NEWROUTE {
        nlmsg_flags = nlmsg_flags | (NLM_F_CREATE | NLM_F_REPLACE);
    }
    let header = NetlinkHeader {
        nlmsg_len: 44,
        nlmsg_type,
        nlmsg_flags,
        nlmsg_seq: seq,
        nlmsg_pid: 0,
    };
    let rtm = RtMsg {
        rtm_family: low_byte_of(family),
        rtm_dst_len: 0,
        rtm_src_len: 0,
        rtm_tos: 0,
        rtm_table: if table <= 255 {
            table as u8
        } else {
            0
        },
        rtm_protocol: RTPROT_BOOT,
        rtm_scope: RT_SCOPE_HOST,
        rtm_type: RTN_LOCAL,
        rtm_flags: 0,
    };
    let mut msg = start_rt_message(order, header, rtm);
    append_nla_u32(order, &mut msg, RTA_ATTR_OIF, oif);
    append_nla_u32(order, &mut msg, FRA_ATTR_TABLE, table);
    msg
}

// ---------------------------------------------------------------------------
// Acknowledgements
// ---------------------------------------------------------------------------

/// What an acknowledgement means.
#[derive(Debug, Clone, Copy, PartialEq, Eq, Structural)]
pub enum PbrAckClass {
    /// The change was made.
    Applied,
    /// There was nothing to change.
    Noop,
    /// The kernel refused the change.
    KernelErr,
}

/// A change.
#[derive(Debug, Clone, Copy, PartialEq, Eq, Structural)]
pub enum PbrOp {
    AddRule,
    DeleteRule,
    ReplaceRoute,
    DeleteRoute,
}

/// What an acknowledgement with an error number, or none for success, means for a change.
pub open spec fn pbr_ack_class(op: PbrOp, errno: Option<i32>) -> PbrAckClass {
    match errno {
        None => PbrAckClass::Applied,
        Some(code) => if (op == PbrOp::AddRule || op == PbrOp::ReplaceRoute) && code == EEXIST {
            PbrAckClass::Noop
        } else if (op == PbrOp::DeleteRule || op == PbrOp::DeleteRoute) && (code == ENOENT || code
            == ESRCH) {
            PbrAckClass::Noop
        } else {
            PbrAckClass::KernelErr
        },
    }
}

/// Tells what an acknowledgement means for a change.
pub fn classify_pbr_ack(op: PbrOp, status: Option<&AckErrorInfo>) -> (r: PbrAckClass)
    ensures
        r == pbr_ack_class(op, match status {
            Some(s) => Some(s.errno),
            None => None,
        }),
{
    let errno: i32 = match status {
        Some(s) => s.errno,
        None => return PbrAckClass::Applied,
    };
    match op {
        PbrOp::AddRule => if errno == EEXIST {
            PbrAckClass::Noop
        } else {
            PbrAckClass::KernelErr
        },
        PbrOp::ReplaceRoute => if errno == EEXIST {
            PbrAckClass::Noop
        } else {
            PbrAckClass::KernelErr
        },
        PbrOp::DeleteRule => if errno == ENOENT || errno == ESRCH {
            PbrAckClass::Noop
        } else {
            PbrAckClass::KernelErr
        },
        PbrOp::DeleteRoute => if errno == ENOENT || errno == ESRCH {
            PbrAckClass::Noop
        } else {
            PbrAckClass::KernelErr
        },
    }
}

/// What some packets bring of an acknowledgement.
pub enum AckSearch {
    /// It has not come yet.
    NotYet,
    Found(PbrAckClass),
    Fail(ErrorView),
}

/// What the items bring of the acknowledgement with a sequence number: the first acknowledgement
/// with that number counts, and nothing is read past an error.
pub open spec fn ack_search(
    order: ByteOrder,
    received: Seq<Item>,
    seq: u32,
    op: PbrOp,
) -> AckSearch
    decreases received.len(),
{
    if received.len() == 0 {
        AckSearch::NotYet
    } else {
        let before = ack_search(order, received.drop_last(), seq, op);
        if before !is NotYet {
            before
        } else {
            match received.last() {
                Item::Error(e) => AckSearch::Fail(e),
                Item::Message(m) => if m.header.nlmsg_seq != seq || m.header.nlmsg_type
                    != NLMSG_ERROR {
                    AckSearch::NotYet
                } else if m.data.len() < 4 {
                    AckSearch::Fail(ErrorView::Netlink("short nlmsg error"@))
                } else {
                    AckSearch::Found(
                        pbr_ack_class(
                            op,
                            match ack_error(order, m.data) {
                                Some(e) => Some(e.errno),
                                None => None,
                            },
                        ),
                    )
                },
            }
        }
    }
}

/// What the first items bring is what they all bring, unless it is nothing.
proof fn lemma_ack_search_prefix(
    order: ByteOrder,
    received: Seq<Item>,
    n: int,
    seq: u32,
    op: PbrOp,
)
    requires
        0 <= n <= received.len(),
        ack_search(order, received.subrange(0, n), seq, op) !is NotYet,
    ensures
        ack_search(order, received, seq, op) == ack_search(
            order,
            received.subrange(0, n),
            seq,
            op,
        ),
    decreases received.len() - n,
{
    if n == received.len() {
        assert(received.subrange(0, n) =~= received);
    } else {
        assert(received.subrange(0, n + 1).drop_last() =~= received.subrange(0, n));
        lemma_ack_search_prefix(order, received, n + 1, seq, op);
    }
}

/// Looks for the acknowledgement with a sequence number among the first `count` packets; `None`
/// where it has not come yet.
pub fn find_pbr_ack(
    order: ByteOrder,
    ring: &MmsgRxRing,
    count: usize,
    seq: u32,
    op: PbrOp,
) -> (r: Result<Option<PbrAckClass>, AppError>)
    requires
        ring.wf(),
        count <= ring@.len(),
    ensures
        match r {
            Ok(None) => ack_search(
                order,
                packet_items(order, ring@.subrange(0, count as int)),
                seq,
                op,
            ) is NotYet,
            Ok(Some(class)) => ack_search(
                order,
                packet_items(order, ring@.subrange(0, count as int)),
                seq,
                op,
            ) == AckSearch::Found(class),
            Err(e) => ack_search(
                order,
                packet_items(order, ring@.subrange(0, count as int)),
                seq,
                op,
            ) == AckSearch::Fail(e@),
        },
{
    let mut received = collect_messages(order, ring, count);
    let ghost all = item_views(received@);
    assert(all.subrange(0, 0) =~= Seq::<Item>::empty());
    let mut i: usize = 0;
    while i < received.len()
        invariant
            i <= received@.len(),
            all == item_views(received@),
            all == packet_items(order, ring@.subrange(0, count as int)),
            ack_search(order, all.subrange(0, i as int), seq, op) is NotYet,
        decreases received@.len() - i,
    {
        proof {
            assert(all.subrange(0, i + 1).drop_last() =~= all.subrange(0, i as int));
            assert(all.subrange(0, i + 1).last() == item_view(received@[i as int]));
            if ack_search(order, all.subrange(0, i + 1), seq, op) !is NotYet {
                lemma_ack_search_prefix(order, all, i + 1, seq, op);
            }
        }
        let found = match &received[i] {
            Ok(msg) => Some(*msg),
            Err(_) => None,
        };
        match found {
            None => {
                match received.swap_remove(i) {
                    Err(e) => return Err(e),
                    Ok(_) => return Ok(None),
                }
            },
            Some(msg) => if msg.header.nlmsg_seq == seq && msg.header.nlmsg_type == NLMSG_ERROR {
                match parse_ack_error_info(order, msg.data) {
                    Err(e) => return Err(e),
                    Ok(status) => {
                        let class = match &status {
                            Some(info) => classify_pbr_ack(op, Some(info)),
                            None => classify_pbr_ack(op, None),
                        };
                        return Ok(Some(class));
                    },
                }
            },
        }
        i = i + 1;
    }
    assert(all.subrange(0, all.len() as int) =~= all);
    Ok(None)
}

/// Goes on waiting for an acknowledgement, or gives it up where nothing came in time.
pub fn wait_pbr_ack(readable: bool) -> (r: Result<(), AppError>)
    ensures
        r is Ok <==> readable,
        r matches Err(e) ==> e@ == ErrorView::Netlink("pbr ack timeout"@),
{
    if readable {
        Ok(())
    } else {
        Err(AppError::netlink("pbr ack timeout"))
    }
}

// ---------------------------------------------------------------------------
// Requests
// ---------------------------------------------------------------------------

/// How far a request has come.
#[derive(Debug, Clone, Copy, PartialEq, Eq, Structural)]
pub enum PbrStep {
    /// Delete a rule; that many were deleted before.
    DeleteRule(usize),
    DeleteRoute,
    ReplaceRoute,
    AddRule,
    Finished,
}

/// The first step of a request: there is nothing to do to tell what a request is.
pub open spec fn start_of(action: PbrAction) -> PbrStep {
    if action == PbrAction::Status {
        PbrStep::Finished
    } else {
        PbrStep::DeleteRule(0)
    }
}

/// The first step of a request.
pub fn first_step(action: PbrAction) -> (r: PbrStep)
    ensures
        r == start_of(action),
        r == (if action == PbrAction::Status {
            PbrStep::Finished
        } else {
            PbrStep::DeleteRule(0)
        }),
{
    match action {
        PbrAction::Status => PbrStep::Finished,
        PbrAction::Apply => PbrStep::DeleteRule(0),
        PbrAction::Cleanup => PbrStep::DeleteRule(0),
    }
}

/// The step after one that was acknowledged; `None` where the request has failed. Rules are
/// deleted until there is none left, up to the limit; what the kernel says of such a deletion
/// is no reason to fail.
pub open spec fn step_after(
    action: PbrAction,
    step: PbrStep,
    class: PbrAckClass,
) -> Option<PbrStep> {
    match step {
        PbrStep::Finished => Some(PbrStep::Finished),
        PbrStep::DeleteRule(n) => if class == PbrAckClass::Noop || n + 1 >= DELETE_RULE_LIMIT {
            Some(PbrStep::DeleteRoute)
        } else {
            Some(PbrStep::DeleteRule((n + 1) as usize))
        },
        _ => if class == PbrAckClass::KernelErr {
            None
        } else {
            match step {
                PbrStep::DeleteRoute => if action == PbrAction::Apply {
                    Some(PbrStep::ReplaceRoute)
                } else {
                    Some(PbrStep::Finished)
                },
                PbrStep::ReplaceRoute => Some(PbrStep::AddRule),
                _ => Some(PbrStep::Finished),
            }
        },
    }
}

/// The step after one that was acknowledged.
pub fn next_step(action: PbrAction, step: PbrStep, class: PbrAckClass) -> (r: Result<
    PbrStep,
    AppError,
>)
    ensures
        match r {
            Ok(next) => step_after(action, step, class) == Some(next),
            Err(e) => step_after(action, step, class) is None && e@ == ErrorView::Netlink(
                "pbr operation failed"@,
            ),
        },
{
    match step {
        PbrStep::Finished => Ok(PbrStep::Finished),
        PbrStep::DeleteRule(n) => if class == PbrAckClass::Noop || n >= DELETE_RULE_LIMIT - 1 {
            Ok(PbrStep::DeleteRoute)
        } else {
            Ok(PbrStep::DeleteRule(n + 1))
        },
        PbrStep::DeleteRoute => if class == PbrAckClass::KernelErr {
            Err(AppError::netlink("pbr operation failed"))
        } else if action == PbrAction::Apply {
            Ok(PbrStep::ReplaceRoute)
        } else {
            Ok(PbrStep::Finished)
        },
        PbrStep::ReplaceRoute => if class == PbrAckClass::KernelErr {
            Err(AppError::netlink("pbr operation failed"))
        } else {
            Ok(PbrStep::AddRule)
        },
        PbrStep::AddRule => if class == PbrAckClass::KernelErr {
            Err(AppError::netlink("pbr operation failed"))
        } else {
            Ok(PbrStep::Finished)
        },
    }
}

/// How many messages a request sends at most from a step on.
pub open spec fn steps_left(step: PbrStep) -> int {
    match step {
        PbrStep::DeleteRule(n) => 3 + if n < DELETE_RULE_LIMIT {
            DELETE_RULE_LIMIT - n
        } else {
            1int
        },
        PbrStep::DeleteRoute => 3,
        PbrStep::ReplaceRoute => 2,
        PbrStep::AddRule => 1,
        PbrStep::Finished => 0,
    }
}

/// Every request ends: each acknowledgement brings it closer to its end.
pub proof fn request_ends(action: PbrAction, step: PbrStep, class: PbrAckClass)
    requires
        step != PbrStep::Finished,
    ensures
        step_after(action, step, class) matches Some(next) ==> 0 <= steps_left(next) < steps_left(
            step,
        ),
{
}

/// A message of a request, with the change that it asks for.
pub struct PbrMessage {
    pub op: PbrOp,
    pub seq: u32,
    pub bytes: Vec<u8>,
}

/// The message of a step.
pub open spec fn step_message(
    order: ByteOrder,
    request: PbrRequest,
    step: PbrStep,
    lo_ifindex: u32,
    seq: u32,
) -> Option<(PbrOp, Seq<u8>)> {
    let family = family_number(request.family) as u8;
    match step {
        PbrStep::Finished => None,
        PbrStep::DeleteRule(_) => Some(
            (
                PbrOp::DeleteRule,
                pbr_rule_message(
                    order,
                    RTM_DELRULE,
                    family,
                    request.mark,
                    request.mask,
                    request.table,
                    request.pref,
                    seq,
                ),
            ),
        ),
        PbrStep::DeleteRoute => Some(
            (
                PbrOp::DeleteRoute,
                pbr_route_message(order, RTM_DELROUTE, family, request.table, lo_ifindex, seq),
            ),
        ),
        PbrStep::ReplaceRoute => Some(
            (
                PbrOp::ReplaceRoute,
                pbr_route_message(order, RTM_NEWROUTE, family, request.table, lo_ifindex, seq),
            ),
        ),
        PbrStep::AddRule => Some(
            (
                PbrOp::AddRule,
                pbr_rule_message(
                    order,
                    RTM_NEWRULE,
                    family,
                    request.mark,
                    request.mask,
                    request.table,
                    request.pref,
                    seq,
                ),
            ),
        ),
    }
}

/// Builds the message of a step; `None` where the request is finished.
pub fn build_step_message(
    order: ByteOrder,
    next: &mut u32,
    request: PbrRequest,
    step: PbrStep,
    lo_ifindex: u32,
) -> (r: Option<PbrMessage>)
    ensures
        match r {
            None => step == PbrStep::Finished && *final(next) == *old(next),
            Some(m) => {
                &&& m.seq == seq_norm(*old(next))
                &&& *final(next) == seq_after(*old(next), 1)
                &&& step_message(order, request, step, lo_ifindex, m.seq) == Some(
                    (m.op, m.bytes@),
                )
            },
        },
{
    if step == PbrStep::Finished {
        return None;
    }
    let family: i32 = request.family.as_i32();
    let seq: u32 = next_seq(next);
    let (op, bytes) = match step {
        PbrStep::DeleteRule(_) => (
            PbrOp::DeleteRule,
            build_pbr_rule_message(
                order,
                RTM_DELRULE,
                family,
                request.mark,
                request.mask,
                request.table,
                request.pref,
                seq,
            ),
        ),
        PbrStep::DeleteRoute => (
            PbrOp::DeleteRoute,
            build_pbr_route_message(order, RTM_DELROUTE, family, request.table, lo_ifindex, seq),
        ),
        PbrStep::ReplaceRoute => (
            PbrOp::ReplaceRoute,
            build_pbr_route_message(order, RTM_NEWROUTE, family, request.table, lo_ifindex, seq),
        ),
        _ => (
            PbrOp::AddRule,
            build_pbr_rule_message(
                order,
                RTM_NEWRULE,
                family,
                request.mark,
                request.mask,
                request.table,
                request.pref,
                seq,
            ),
        ),
    };
    Some(PbrMessage { op, seq, bytes })
}

/// The word for a family.
pub open spec fn family_word(family: i32) -> Seq<char> {
    if family == AF_INET {
        "ipv4"@
    } else if family == AF_INET6 {
        "ipv6"@
    } else {
        "unknown"@
    }
}

/// The word for a family.
pub fn family_name(family: i32) -> (r: &'static str)
    ensures
        r@ == family_word(family),
{
    if family == AF_INET {
        "ipv4"
    } else if family == AF_INET6 {
        "ipv6"
    } else {
        "unknown"
    }
}

/// What is printed at the end of a request.
pub open spec fn request_text(request: PbrRequest) -> Seq<char> {
    (match request.action {
        PbrAction::Apply => "pbr applied family="@,
        PbrAction::Cleanup => "pbr cleaned family="@,
        PbrAction::Status => "pbr target family="@,
    }) + family_word(family_number(request.family)) + " mark=0x"@ + numeral(
        request.mark as nat,
        16,
    ) + "/0x"@ + numeral(request.mask as nat, 16) + " table="@ + dec(request.table as nat)
        + " pref="@ + dec(request.pref as nat)
}

/// What is printed at the end of a request.
pub fn request_summary(request: PbrRequest) -> (r: String)
    ensures
        r@ == request_text(request),
{
    let mut s = String::new();
    s.append(
        match request.action {
            PbrAction::Apply => "pbr applied family=",
            PbrAction::Cleanup => "pbr cleaned family=",
            PbrAction::Status => "pbr target family=",
        },
    );
    s.append(family_name(request.family.as_i32()));
    s.append(" mark=0x");
    push_numeral(&mut s, request.mark as u128, 16);
    s.append("/0x");
    push_numeral(&mut s, request.mask as u128, 16);
    s.append(" table=");
    push_dec(&mut s, request.table as u128);
    s.append(" pref=");
    push_dec(&mut s, request.pref as u128);
    assert(s@ =~= request_text(request));
    s
}

/// The index of the loopback interface as the system gave it; zero stands for none.
pub fn loopback_ifindex(index: u32) -> (r: Result<u32, AppError>)
    ensures
        match r {
            Ok(i) => i == index && index != 0,
            Err(e) => index == 0 && e@ == ErrorView::Message("loopback interface not found"@),
        },
{
    if index == 0 {
        Err(AppError::message("loopback interface not found"))
    } else {
        Ok(index)
    }
}

} // verus!
