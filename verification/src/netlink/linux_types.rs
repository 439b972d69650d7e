//! Fixed-size bodies of routing messages.
use crate::bytes::{
    push_u32, read_u32, u32_at, u32_bytes, u32_reads_back, ByteOrder,
};
use vstd::prelude::*;

verus! {

/// The body of a rule or route message.
#[derive(Debug, Clone, Copy, PartialEq, Eq, Structural)]
pub struct RtMsg {
    pub rtm_family: u8,
    pub rtm_dst_len: u8,
    pub rtm_src_len: u8,
    pub rtm_tos: u8,
    pub rtm_table: u8,
    pub rtm_protocol: u8,
    pub rtm_scope: u8,
    pub rtm_type: u8,
    pub rtm_flags: u32,
}

/// The body of an address message.
#[derive(Debug, Clone, Copy, PartialEq, Eq, Structural)]
pub struct IfAddrMsg {
    pub ifa_family: u8,
    pub ifa_prefixlen: u8,
    pub ifa_flags: u8,
    pub ifa_scope: u8,
    pub ifa_index: u32,
}

pub const RTMSG_LEN: usize = 12;
pub const IFADDRMSG_LEN: usize = 8;

pub const RTNLGRP_IPV4_IFADDR: u32 = 5;
pub const RTNLGRP_IPV6_IFADDR: u32 = 9;

/// The twelve bytes of a rule body.
pub open spec fn rtmsg_bytes(order: ByteOrder, m: RtMsg) -> Seq<u8> {
    seq![
        m.rtm_family,
        m.rtm_dst_len,
        m.rtm_src_len,
        m.rtm_tos,
        m.rtm_table,
        m.rtm_protocol,
        m.rtm_scope,
        m.rtm_type,
    ] + u32_bytes(order, m.rtm_flags)
}

/// The rule body at the start of the bytes.
pub open spec fn rtmsg_at(order: ByteOrder, s: Seq<u8>) -> RtMsg {
    RtMsg {
        rtm_family: s[0],
        rtm_dst_len: s[1],
        rtm_src_len: s[2],
        rtm_tos: s[3],
        rtm_table: s[4],
        rtm_protocol: s[5],
        rtm_scope: s[6],
        rtm_type: s[7],
        rtm_flags: u32_at(order, s, 8),
    }
}

/// The eight bytes of an address body.
pub open spec fn ifaddrmsg_bytes(order: ByteOrder, m: IfAddrMsg) -> Seq<u8> {
    seq![m.ifa_family, m.ifa_prefixlen, m.ifa_flags, m.ifa_scope] + u32_bytes(order, m.ifa_index)
}

/// The address body at the start of the bytes.
pub open spec fn ifaddrmsg_at(order: ByteOrder, s: Seq<u8>) -> IfAddrMsg {
    IfAddrMsg {
        ifa_family: s[0],
        ifa_prefixlen: s[1],
        ifa_flags: s[2],
        ifa_scope: s[3],
        ifa_index: u32_at(order, s, 4),
    }
}

/// Appends the bytes of a rule body.
pub fn push_rtmsg(order: ByteOrder, out: &mut Vec<u8>, m: RtMsg)
    ensures
        final(out)@ == old(out)@ + rtmsg_bytes(order, m),
{
    out.push(m.rtm_family);
    out.push(m.rtm_dst_len);
    out.push(m.rtm_src_len);
    out.push(m.rtm_tos);
    out.push(m.rtm_table);
    out.push(m.rtm_protocol);
    out.push(m.rtm_scope);
    out.push(m.rtm_type);
    push_u32(order, out, m.rtm_flags);
    assert(out@ =~= old(out)@ + rtmsg_bytes(order, m));
}

/// Reads a rule body; `None` where the bytes are too few.
pub fn read_rtmsg(order: ByteOrder, s: &[u8]) -> (r: Option<RtMsg>)
    ensures
        r is Some <==> s@.len() >= RTMSG_LEN,
        r matches Some(m) ==> m == rtmsg_at(order, s@),
{
    if s.len() < RTMSG_LEN {
        return None;
    }
    Some(
        RtMsg {
            rtm_family: s[0],
            rtm_dst_len: s[1],
            rtm_src_len: s[2],
            rtm_tos: s[3],
            rtm_table: s[4],
            rtm_protocol: s[5],
            rtm_scope: s[6],
            rtm_type: s[7],
            rtm_flags: read_u32(order, s, 8),
        },
    )
}

/// Appends the bytes of an address body.
pub fn push_ifaddrmsg(order: ByteOrder, out: &mut Vec<u8>, m: IfAddrMsg)
    ensures
        final(out)@ == old(out)@ + ifaddrmsg_bytes(order, m),
{
    out.push(m.ifa_family);
    out.push(m.ifa_prefixlen);
    out.push(m.ifa_flags);
    out.push(m.ifa_scope);
    push_u32(order, out, m.ifa_index);
    assert(out@ =~= old(out)@ + ifaddrmsg_bytes(order, m));
}

/// Reads an address body; `None` where the bytes are too few.
pub fn read_ifaddrmsg(order: ByteOrder, s: &[u8]) -> (r: Option<IfAddrMsg>)
    ensures
        r is Some <==> s@.len() >= IFADDRMSG_LEN,
        r matches Some(m) ==> m == ifaddrmsg_at(order, s@),
{
    if s.len() < IFADDRMSG_LEN {
        return None;
    }
    Some(
        IfAddrMsg {
            ifa_family: s[0],
            ifa_prefixlen: s[1],
            ifa_flags: s[2],
            ifa_scope: s[3],
            ifa_index: read_u32(order, s, 4),
        },
    )
}

/// A rule body is read back as it was written.
pub proof fn rtmsg_reads_back(order: ByteOrder, m: RtMsg, rest: Seq<u8>)
    ensures
        rtmsg_bytes(order, m).len() == RTMSG_LEN,
        rtmsg_at(order, rtmsg_bytes(order, m) + rest) == m,
{
    let head = seq![
        m.rtm_family,
        m.rtm_dst_len,
        m.rtm_src_len,
        m.rtm_tos,
        m.rtm_table,
        m.rtm_protocol,
        m.rtm_scope,
        m.rtm_type,
    ];
    assert(rtmsg_bytes(order, m) + rest =~= head + u32_bytes(order, m.rtm_flags) + rest);
    u32_reads_back(order, m.rtm_flags, head, rest);
}

/// An address body is read back as it was written.
pub proof fn ifaddrmsg_reads_back(order: ByteOrder, m: IfAddrMsg, rest: Seq<u8>)
    ensures
        ifaddrmsg_bytes(order, m).len() == IFADDRMSG_LEN,
        ifaddrmsg_at(order, ifaddrmsg_bytes(order, m) + rest) == m,
{
    let head = seq![m.ifa_family, m.ifa_prefixlen, m.ifa_flags, m.ifa_scope];
    assert(ifaddrmsg_bytes(order, m) + rest =~= head + u32_bytes(order, m.ifa_index) + rest);
    u32_reads_back(order, m.ifa_index, head, rest);
}

} // verus!
