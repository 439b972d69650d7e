//! Finding the daemon's own rules in a rule dump.
use crate::bytes::{
    low_byte, low_byte_of, read_u32, u32_at, u32_bytes, u32_reads_back, ByteOrder,
};
use crate::error::{AppError, ErrorView};
use crate::ip_key::{key_of, octets, IpAddr, IpKey};
use crate::ip_set::IpSet;
use crate::netlink::addr::raw_view;
use crate::netlink::codec::{
    build_netlink_request, nla_views, nlas, nlas_error, parse_nlas, request_bytes, Message,
    NetlinkMessageView, Nla, NlaView, FRA_ATTR_DST, FRA_ATTR_PRIORITY, FRA_ATTR_TABLE,
};
use crate::netlink::dump_engine::{message_views, DumpChunk};
use crate::netlink::linux_types::{
    push_rtmsg, read_rtmsg, rtmsg_at, rtmsg_bytes, RtMsg, RTMSG_LEN,
};
use crate::netlink::raw_addr::RawAddrBuf;
use crate::netlink::rule::{
    addr_family, addr_from_netlink, opt_key, raw_key, rule_attrs, rule_body, rule_data,
    rule_data_reads_back, RuleContext, RuleOp,
};
use crate::sys::{AF_INET, AF_INET6, NLM_F_DUMP, NLM_F_REQUEST, RTM_GETRULE, RTM_NEWRULE};
use vstd::prelude::*;
use vstd::slice::slice_subrange;

verus! {

/// How far the search for rules in a dump has come.
#[derive(Debug, Clone, Copy, PartialEq, Eq, Structural)]
pub enum CleanupDumpPoll {
    Pending,
    Done,
}

/// The request for all rules of a family.
pub open spec fn rule_dump_message(order: ByteOrder, family: u8, seq: u32) -> Seq<u8> {
    request_bytes(
        order,
        RTM_GETRULE,
        NLM_F_REQUEST | NLM_F_DUMP,
        seq,
        rtmsg_bytes(
            order,
            RtMsg {
                rtm_family: family,
                rtm_dst_len: 0,
                rtm_src_len: 0,
                rtm_tos: 0,
                rtm_table: 0,
                rtm_protocol: 0,
                rtm_scope: 0,
                rtm_type: 0,
                rtm_flags: 0,
            },
        ),
    )
}

/// Builds the request for all rules of a family.
pub fn build_rule_dump_message(order: ByteOrder, family: i32, seq: u32) -> (r: Vec<u8>)
    ensures
        r@ == rule_dump_message(order, low_byte(family), seq),
{
    let rtm = RtMsg {
        rtm_family: low_byte_of(family),
        rtm_dst_len: 0,
        rtm_src_len: 0,
        rtm_tos: 0,
        rtm_table: 0,
        rtm_protocol: 0,
        rtm_scope: 0,
        rtm_type: 0,
        rtm_flags: 0,
    };
    let mut body: Vec<u8> = Vec::new();
    push_rtmsg(order, &mut body, rtm);
    assert(body@ =~= rtmsg_bytes(order, rtm));
    build_netlink_request(order, RTM_GETRULE, NLM_F_REQUEST | NLM_F_DUMP, seq, body.as_slice())
}

/// What the attributes of a rule say so far.
pub struct FoundRule {
    pub table_id: u32,
    pub pref: Option<u32>,
    pub dst: Option<Seq<u8>>,
    pub error: Option<ErrorView>,
}

/// What the attributes of a rule say, up to the first destination of a length that no address
/// has. Later attributes override earlier ones and the table of the body.
pub open spec fn found_rule(order: ByteOrder, body_table: u8, attrs: Seq<Nla>) -> FoundRule
    decreases attrs.len(),
{
    if attrs.len() == 0 {
        FoundRule { table_id: body_table as u32, pref: None, dst: None, error: None }
    } else {
        let before = found_rule(order, body_table, attrs.drop_last());
        let a = attrs.last();
        if before.error is Some {
            before
        } else if a.typ == FRA_ATTR_PRIORITY && a.value.len() >= 4 {
            FoundRule { pref: Some(u32_at(order, a.value, 0)), ..before }
        } else if a.typ == FRA_ATTR_TABLE && a.value.len() >= 4 {
            FoundRule { table_id: u32_at(order, a.value, 0), ..before }
        } else if a.typ == FRA_ATTR_DST {
            if 1 <= a.value.len() <= 16 {
                FoundRule { dst: Some(a.value), ..before }
            } else {
                FoundRule {
                    error: Some(ErrorView::Netlink("rule dump invalid FRA_DST length"@)),
                    ..before
                }
            }
        } else {
            before
        }
    }
}

/// An error among the first attributes ends the reading of them all.
proof fn lemma_found_error(order: ByteOrder, body_table: u8, attrs: Seq<Nla>, n: int)
    requires
        0 <= n <= attrs.len(),
        found_rule(order, body_table, attrs.subrange(0, n)).error is Some,
    ensures
        found_rule(order, body_table, attrs) == found_rule(
            order,
            body_table,
            attrs.subrange(0, n),
        ),
    decreases attrs.len() - n,
{
    if n == attrs.len() {
        assert(attrs.subrange(0, n) =~= attrs);
    } else {
        assert(attrs.subrange(0, n + 1).drop_last() =~= attrs.subrange(0, n));
        lemma_found_error(order, body_table, attrs, n + 1);
    }
}

/// Whether the body is that of a rule for a single address of the family.
pub open spec fn is_host_rule(rtm: RtMsg, family: int) -> bool {
    &&& rtm.rtm_family == family
    &&& family == AF_INET ==> rtm.rtm_dst_len == 32
    &&& family == AF_INET6 ==> rtm.rtm_dst_len == 128
}

/// The address of a rule with the priority and the table of the daemon, or the error that
/// reading the rule ends with. Other rules have none.
pub open spec fn cleanup_key(
    order: ByteOrder,
    data: Seq<u8>,
    ctx: RuleContext,
    family: int,
) -> Result<Option<IpKey>, ErrorView> {
    let rtm = rtmsg_at(order, data);
    let raw = data.subrange(RTMSG_LEN as int, data.len() as int);
    let found = found_rule(order, rtm.rtm_table, nlas(order, raw));
    if data.len() < RTMSG_LEN || !is_host_rule(rtm, family) {
        Ok(None)
    } else {
        match (found.error, nlas_error(order, raw), found.dst) {
            (Some(e), _, _) => Err(e),
            (None, Some(e), _) => Err(e),
            (None, None, None) => Ok(None),
            (None, None, Some(dst)) => if found.pref == Some(ctx.pref) && found.table_id
                == ctx.table_id {
                Ok(raw_key(rtm.rtm_family, dst))
            } else {
                Ok(None)
            },
        }
    }
}

/// Reads the address of a rule of the daemon; `None` for any other rule.
pub fn parse_cleanup_rule_addr(
    order: ByteOrder,
    msg: NetlinkMessageView<'_>,
    rule_ctx: RuleContext,
    family: i32,
) -> (r: Result<Option<IpAddr>, AppError>)
    ensures
        match r {
            Ok(addr) => cleanup_key(order, msg.data@, rule_ctx, family as int) == Ok::<
                Option<IpKey>,
                ErrorView,
            >(opt_key(addr)),
            Err(e) => cleanup_key(order, msg.data@, rule_ctx, family as int) == Err::<
                Option<IpKey>,
                ErrorView,
            >(e@),
        },
{
    let rtm = match read_rtmsg(order, msg.data) {
        Some(rtm) => rtm,
        None => return Ok(None),
    };
    if rtm.rtm_family as i32 != family {
        return Ok(None);
    }
    if family == AF_INET && rtm.rtm_dst_len != 32 {
        return Ok(None);
    }
    if family == AF_INET6 && rtm.rtm_dst_len != 128 {
        return Ok(None);
    }
    let raw = slice_subrange(msg.data, RTMSG_LEN, msg.data.len());
    let list = parse_nlas(order, raw);
    let attrs = list.attrs;
    let ghost all = nla_views(attrs@);
    let mut table_id: u32 = rtm.rtm_table as u32;
    let mut pref: Option<u32> = None;
    let mut dst: Option<RawAddrBuf> = None;
    assert(all.subrange(0, 0) =~= Seq::<Nla>::empty());
    for i in 0..attrs.len()
        invariant
            all == nla_views(attrs@),
            all == nlas(order, raw@),
            raw@ == msg.data@.subrange(RTMSG_LEN as int, msg.data@.len() as int),
            msg.data@.len() >= RTMSG_LEN,
            rtm == rtmsg_at(order, msg.data@),
            is_host_rule(rtm, family as int),
            found_rule(order, rtm.rtm_table, all.subrange(0, i as int)) == (FoundRule {
                table_id,
                pref,
                dst: raw_view(dst),
                error: None,
            }),
    {
        let a: NlaView<'_> = attrs[i];
        proof {
            assert(all.subrange(0, i + 1).drop_last() =~= all.subrange(0, i as int));
            assert(all.subrange(0, i + 1).last() == a@);
        }
        if a.typ == FRA_ATTR_PRIORITY && a.value.len() >= 4 {
            pref = Some(read_u32(order, a.value, 0));
        } else if a.typ == FRA_ATTR_TABLE && a.value.len() >= 4 {
            table_id = read_u32(order, a.value, 0);
        } else if a.typ == FRA_ATTR_DST {
            match RawAddrBuf::from_slice(a.value, "rule dump invalid FRA_DST length") {
                Ok(buf) => {
                    dst = Some(buf);
                },
                Err(e) => {
                    proof {
                        lemma_found_error(order, rtm.rtm_table, all, i + 1);
                    }
                    return Err(e);
                },
            }
        }
    }
    assert(all.subrange(0, all.len() as int) =~= all);
    if let Some(e) = list.error {
        return Err(e);
    }
    let dst = match dst {
        Some(dst) => dst,
        None => return Ok(None),
    };
    match pref {
        Some(p) => if p != rule_ctx.pref || table_id != rule_ctx.table_id {
            Ok(None)
        } else {
            Ok(addr_from_netlink(rtm.rtm_family, dst.as_slice()))
        },
        None => Ok(None),
    }
}

/// What the messages of a dump bring: the addresses met so far, those met for the first time,
/// in order, and the error that stopped the search.
pub struct CleanupTargets {
    pub seen: Set<IpKey>,
    pub keys: Seq<IpKey>,
    pub error: Option<ErrorView>,
}

/// What the messages of a dump bring where the addresses in `seen` were met before.
pub open spec fn cleanup_targets(
    order: ByteOrder,
    messages: Seq<Message>,
    ctx: RuleContext,
    family: int,
    seen: Set<IpKey>,
) -> CleanupTargets
    decreases messages.len(),
{
    if messages.len() == 0 {
        CleanupTargets { seen, keys: Seq::empty(), error: None }
    } else {
        let before = cleanup_targets(order, messages.drop_last(), ctx, family, seen);
        let m = messages.last();
        if before.error is Some || m.header.nlmsg_type != RTM_NEWRULE {
            before
        } else {
            match cleanup_key(order, m.data, ctx, family) {
                Err(e) => CleanupTargets { error: Some(e), ..before },
                Ok(Some(key)) => if before.seen.contains(key) {
                    before
                } else {
                    CleanupTargets {
                        seen: before.seen.insert(key),
                        keys: before.keys.push(key),
                        ..before
                    }
                },
                Ok(None) => before,
            }
        }
    }
}

/// An error among the first messages ends the search in them all.
proof fn lemma_targets_error(
    order: ByteOrder,
    messages: Seq<Message>,
    ctx: RuleContext,
    family: int,
    seen: Set<IpKey>,
    n: int,
)
    requires
        0 <= n <= messages.len(),
        cleanup_targets(order, messages.subrange(0, n), ctx, family, seen).error is Some,
    ensures
        cleanup_targets(order, messages, ctx, family, seen) == cleanup_targets(
            order,
            messages.subrange(0, n),
            ctx,
            family,
            seen,
        ),
    decreases messages.len() - n,
{
    if n == messages.len() {
        assert(messages.subrange(0, n) =~= messages);
    } else {
        assert(messages.subrange(0, n + 1).drop_last() =~= messages.subrange(0, n));
        lemma_targets_error(order, messages, ctx, family, seen, n + 1);
    }
}

/// Appends the addresses of the daemon's rules among the messages that were not met before.
pub fn collect_cleanup_targets(
    order: ByteOrder,
    messages: &[NetlinkMessageView<'_>],
    rule_ctx: RuleContext,
    family: i32,
    seen: &mut IpSet,
    out: &mut Vec<IpKey>,
) -> (r: Result<(), AppError>)
    ensures
        ({
            let t = cleanup_targets(
                order,
                message_views(messages@),
                rule_ctx,
                family as int,
                old(seen)@,
            );
            &&& final(seen)@ == t.seen
            &&& final(out)@ == old(out)@ + t.keys
            &&& match r {
                Ok(_) => t.error is None,
                Err(e) => t.error == Some(e@),
            }
        }),
{
    let ghost all = message_views(messages@);
    let ghost start = seen@;
    assert(all.subrange(0, 0) =~= Seq::<Message>::empty());
    assert(out@ =~= old(out)@ + Seq::<IpKey>::empty());
    for i in 0..messages.len()
        invariant
            all == message_views(messages@),
            start == old(seen)@,
            ({
                let t = cleanup_targets(
                    order,
                    all.subrange(0, i as int),
                    rule_ctx,
                    family as int,
                    start,
                );
                &&& seen@ == t.seen
                &&& out@ == old(out)@ + t.keys
                &&& t.error is None
            }),
    {
        let msg = messages[i];
        let ghost before = cleanup_targets(
            order,
            all.subrange(0, i as int),
            rule_ctx,
            family as int,
            start,
        );
        proof {
            assert(all.subrange(0, i + 1).drop_last() =~= all.subrange(0, i as int));
            assert(all.subrange(0, i + 1).last() == msg@);
        }
        if msg.header.nlmsg_type == RTM_NEWRULE {
            match parse_cleanup_rule_addr(order, msg, rule_ctx, family) {
                Err(e) => {
                    proof {
                        lemma_targets_error(order, all, rule_ctx, family as int, start, i + 1);
                    }
                    return Err(e);
                },
                Ok(Some(addr)) => {
                    let key = IpKey::from_ip(addr);
                    if seen.insert(key) {
                        out.push(key);
                        assert(out@ =~= old(out)@ + before.keys.push(key));
                    } else {
                        assert(before.seen.insert(key) =~= before.seen);
                    }
                },
                Ok(None) => {},
            }
        }
    }
    assert(all.subrange(0, all.len() as int) =~= all);
    Ok(())
}

/// Takes what some packets bring of a dump, and tells whether the dump has ended. What was found
/// before an error is kept.
pub fn poll_cleanup_targets(
    order: ByteOrder,
    chunk: DumpChunk<'_>,
    rule_ctx: RuleContext,
    family: i32,
    seen: &mut IpSet,
    out: &mut Vec<IpKey>,
) -> (r: Result<CleanupDumpPoll, AppError>)
    ensures
        ({
            let t = cleanup_targets(
                order,
                chunk@.messages,
                rule_ctx,
                family as int,
                old(seen)@,
            );
            &&& final(seen)@ == t.seen
            &&& final(out)@ == old(out)@ + t.keys
            &&& match r {
                Err(e) => if t.error is Some {
                    t.error == Some(e@)
                } else {
                    chunk@.error == Some(e@)
                },
                Ok(poll) => t.error is None && chunk@.error is None && poll == (if chunk@.done {
                    CleanupDumpPoll::Done
                } else {
                    CleanupDumpPoll::Pending
                }),
            }
        }),
{
    match collect_cleanup_targets(
        order,
        chunk.messages.as_slice(),
        rule_ctx,
        family,
        seen,
        out,
    ) {
        Err(e) => return Err(e),
        Ok(_) => {},
    }
    if let Some(e) = chunk.error {
        return Err(e);
    }
    if chunk.done {
        Ok(CleanupDumpPoll::Done)
    } else {
        Ok(CleanupDumpPoll::Pending)
    }
}

/// What the three attributes of a rule say.
proof fn lemma_found_three(order: ByteOrder, table: u8, x: Seq<u8>, p: Seq<u8>, t: Seq<u8>)
    requires
        1 <= x.len() <= 16,
        p.len() == 4,
        t.len() == 4,
    ensures
        found_rule(
            order,
            table,
            seq![
                Nla { typ: FRA_ATTR_DST, value: x },
                Nla { typ: FRA_ATTR_PRIORITY, value: p },
                Nla { typ: FRA_ATTR_TABLE, value: t },
            ],
        ) == (FoundRule {
            table_id: u32_at(order, t, 0),
            pref: Some(u32_at(order, p, 0)),
            dst: Some(x),
            error: None,
        }),
{
    let a = Nla { typ: FRA_ATTR_DST, value: x };
    let b = Nla { typ: FRA_ATTR_PRIORITY, value: p };
    let c = Nla { typ: FRA_ATTR_TABLE, value: t };
    let s0 = Seq::<Nla>::empty();
    let s1 = seq![a];
    let s2 = seq![a, b];
    let s3 = seq![a, b, c];
    assert(s1.drop_last() =~= s0);
    assert(s2.drop_last() =~= s1);
    assert(s3.drop_last() =~= s2);
    let f0 = found_rule(order, table, s0);
    let f1 = found_rule(order, table, s1);
    assert(f1 == (FoundRule { dst: Some(x), ..f0 }));
    let f2 = found_rule(order, table, s2);
    assert(f2 == (FoundRule { pref: Some(u32_at(order, p, 0)), ..f1 }));
}

/// What the attributes in the message for a rule say.
proof fn lemma_own_found(order: ByteOrder, ctx: RuleContext, op: RuleOp)
    ensures
        found_rule(order, rule_body(ctx, op).rtm_table, rule_attrs(order, ctx, op)) == (FoundRule {
            table_id: ctx.table_id,
            pref: Some(ctx.pref),
            dst: Some(octets(op.addr)),
            error: None,
        }),
{
    let none = Seq::<u8>::empty();
    let p = u32_bytes(order, ctx.pref);
    let t = u32_bytes(order, ctx.table_id);
    assert(none + p + none =~= p);
    u32_reads_back(order, ctx.pref, none, none);
    assert(none + t + none =~= t);
    u32_reads_back(order, ctx.table_id, none, none);
    lemma_found_three(order, rule_body(ctx, op).rtm_table, octets(op.addr), p, t);
}

/// A rule that the daemon built is found again in a dump: its message, read with the same
/// priority and table, gives back the address.
pub proof fn own_rule_is_recognised(order: ByteOrder, ctx: RuleContext, op: RuleOp)
    ensures
        cleanup_key(order, rule_data(order, ctx, op), ctx, addr_family(op.addr) as int) == Ok::<
            Option<IpKey>,
            ErrorView,
        >(Some(key_of(op.addr))),
{
    rule_data_reads_back(order, ctx, op);
    lemma_own_found(order, ctx, op);
    assert(raw_key(addr_family(op.addr), octets(op.addr)) == Some(key_of(op.addr)));
}

/// A rule with another priority, or with another table, is never taken for one of the daemon's.
pub proof fn foreign_rule_is_left_alone(
    order: ByteOrder,
    ctx: RuleContext,
    other: RuleContext,
    op: RuleOp,
)
    requires
        other != ctx,
    ensures
        cleanup_key(order, rule_data(order, other, op), ctx, addr_family(op.addr) as int) == Ok::<
            Option<IpKey>,
            ErrorView,
        >(None),
{
    rule_data_reads_back(order, other, op);
    lemma_own_found(order, other, op);
}

} // verus!
