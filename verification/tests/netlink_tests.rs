use addrsyncd::bytes::{byte_order_of, host_byte_order, push_u32, read_u16, read_u32, ByteOrder};
use addrsyncd::cli::{PbrAction, PbrFamily, PbrRequest};
use addrsyncd::ip_key::{IpAddr, IpKey};
use addrsyncd::ip_set::IpSet;
use addrsyncd::netlink::addr::{
    build_addr_dump_message, collect_dumped_keys, finish_snapshot, is_valid_addr, mask_v4, mask_v6,
    parse_addr_event, snapshot_families, unmap_addr, CidrMatcher, IgnoreFilters,
};
use addrsyncd::netlink::cleanup::{
    build_rule_dump_message, parse_cleanup_rule_addr, poll_cleanup_targets, CleanupDumpPoll,
};
use addrsyncd::netlink::codec::{
    append_nla, append_nla_u32, build_netlink_request, next_seq, nla_align, nlmsg_align,
    parse_ack_errno, parse_ack_error_info, parse_nlas, push_header, reserve_seq_block,
    seq_to_batch_index, seq_with_offset, ExtAckText, NetlinkHeader, NetlinkMessageIter,
    NetlinkMessageView, FRA_ATTR_DST, FRA_ATTR_PRIORITY, FRA_ATTR_TABLE, IFA_ATTR_FLAGS,
    IFA_F_TEMPORARY, NLMSGERR_ATTR_MSG, NLMSGERR_ATTR_OFFS, NLMSG_HEADER_LEN,
};
use addrsyncd::netlink::dump_engine::{after_dump_wait, recv_step, DumpPoll};
use addrsyncd::netlink::linux_types::{
    push_ifaddrmsg, push_rtmsg, read_ifaddrmsg, read_rtmsg, IfAddrMsg, RtMsg, RTMSG_LEN,
    RTNLGRP_IPV4_IFADDR, RTNLGRP_IPV6_IFADDR,
};
use addrsyncd::netlink::pbr::{
    build_pbr_route_message, build_pbr_rule_message, build_step_message, classify_pbr_ack,
    find_pbr_ack, first_step, loopback_ifindex, next_step, request_summary, wait_pbr_ack,
    PbrAckClass, PbrOp, PbrStep, DELETE_RULE_LIMIT, FRA_ATTR_FWMARK, FRA_ATTR_FWMASK, RTA_ATTR_OIF,
};
use addrsyncd::netlink::rule::{
    build_rule_message_into, classify_ack_for_op, classify_wait_error, drain_apply_ack_messages,
    start_apply_rules_batch, AckTracker, AckWaitErrorKind, NetlinkAckStatus, RuleAckClass,
    RuleAction, RuleContext, RuleOp,
};
use addrsyncd::netlink::socket::{
    recv_outcome, route_addr_groups, send_step, MmsgRxRing, RecvOutcome, SendStep,
};
use addrsyncd::error::{IoError, IoKind};
use addrsyncd::sys::{
    AF_INET, AF_INET6, EAGAIN, EEXIST, ENOENT, IFA_ADDRESS, NLMSG_DONE, NLMSG_ERROR, RTM_DELADDR,
    RTM_DELRULE, RTM_GETADDR, RTM_GETRULE, RTM_NEWADDR, RTM_NEWROUTE, RTM_NEWRULE, RTN_LOCAL,
    RT_SCOPE_HOST,
};

const ORDER: ByteOrder = ByteOrder::Little;
const EPERM: i32 = 1;

fn ten(last: u8) -> IpAddr {
    IpAddr::V4([10, 0, 0, last])
}

fn v6(groups: [u16; 8]) -> IpAddr {
    let mut octets = [0u8; 16];
    for (i, g) in groups.iter().enumerate() {
        octets[2 * i] = (g >> 8) as u8;
        octets[2 * i + 1] = (g & 0xFF) as u8;
    }
    IpAddr::V6(octets)
}

fn octets(addr: IpAddr) -> Vec<u8> {
    match addr {
        IpAddr::V4(o) => o.to_vec(),
        IpAddr::V6(o) => o.to_vec(),
    }
}

fn header(len: u32, typ: u16, seq: u32) -> NetlinkHeader {
    NetlinkHeader {
        nlmsg_len: len,
        nlmsg_type: typ,
        nlmsg_flags: 0,
        nlmsg_seq: seq,
        nlmsg_pid: 0,
    }
}

fn no_ifaddr(family: i32) -> IfAddrMsg {
    IfAddrMsg {
        ifa_family: family as u8,
        ifa_prefixlen: 0,
        ifa_flags: 0,
        ifa_scope: 0,
        ifa_index: 0,
    }
}

fn no_rtmsg(family: i32, dst_len: u8) -> RtMsg {
    RtMsg {
        rtm_family: family as u8,
        rtm_dst_len: dst_len,
        rtm_src_len: 0,
        rtm_tos: 0,
        rtm_table: 0,
        rtm_protocol: 0,
        rtm_scope: 0,
        rtm_type: 0,
        rtm_flags: 0,
    }
}

fn addr_event_data(addr: IpAddr, flags: u32) -> Vec<u8> {
    let mut data = Vec::new();
    let family = match addr {
        IpAddr::V4(_) => AF_INET,
        IpAddr::V6(_) => AF_INET6,
    };
    push_ifaddrmsg(ORDER, &mut data, no_ifaddr(family));
    append_nla(ORDER, &mut data, IFA_ADDRESS, &octets(addr));
    append_nla_u32(ORDER, &mut data, IFA_ATTR_FLAGS, flags);
    data
}

fn message(typ: u16, seq: u32, data: &[u8]) -> Vec<u8> {
    let mut out = Vec::new();
    push_header(ORDER, &mut out, header((16 + data.len()) as u32, typ, seq));
    out.extend_from_slice(data);
    out
}

fn ack(seq: u32, errno: i32) -> Vec<u8> {
    let mut data = Vec::new();
    push_u32(ORDER, &mut data, (-errno) as u32);
    push_header(ORDER, &mut data, header(36, 0, seq));
    message(NLMSG_ERROR, seq, &data)
}

fn ring_of(packets: &[Vec<u8>]) -> MmsgRxRing {
    let size = 4096;
    let mut ring = MmsgRxRing::new(packets.len(), size);
    let mut lengths = Vec::new();
    for (i, p) in packets.iter().enumerate() {
        ring.slab[i * size..i * size + p.len()].copy_from_slice(p);
        lengths.push(p.len() as u32);
    }
    ring.update_lengths(&lengths);
    ring
}

fn view(data: &[u8], typ: u16) -> NetlinkMessageView<'_> {
    NetlinkMessageView {
        header: header(data.len() as u32, typ, 1),
        data,
    }
}

/// Numbers that look random but are the same in every run.
fn scrambled(seed: u64, len: usize) -> Vec<u8> {
    let mut x = seed.wrapping_mul(0x9E37_79B9_7F4A_7C15) | 1;
    (0..len)
        .map(|_| {
            x ^= x << 13;
            x ^= x >> 7;
            x ^= x << 17;
            (x >> 24) as u8
        })
        .collect()
}

#[test]
fn seq_to_batch_index_contract() {
    assert_eq!(seq_to_batch_index(99, 100, 4), None);
    assert_eq!(seq_to_batch_index(100, 100, 4), Some(0));
    assert_eq!(seq_to_batch_index(103, 100, 4), Some(3));
    assert_eq!(seq_to_batch_index(104, 100, 4), None);
    assert_eq!(seq_to_batch_index(0, u32::MAX - 1, 4), None);
    assert_eq!(seq_to_batch_index(1, u32::MAX - 1, 4), Some(2));
    assert_eq!(seq_to_batch_index(2, u32::MAX - 1, 4), Some(3));
}

#[test]
fn seq_with_offset_skips_zero_on_wrap() {
    assert_eq!(seq_with_offset(u32::MAX - 1, 0), u32::MAX - 1);
    assert_eq!(seq_with_offset(u32::MAX - 1, 1), u32::MAX);
    assert_eq!(seq_with_offset(u32::MAX - 1, 2), 1);
    assert_eq!(seq_with_offset(u32::MAX - 1, 3), 2);
}

#[test]
fn netlink_iter_does_not_panic_on_random_data() {
    for seed in 0..200u64 {
        let data = scrambled(seed, (seed as usize * 11) % 2048);
        let mut iter = NetlinkMessageIter::new(ORDER, &data);
        let mut count = 0usize;
        while let Some(item) = iter.next() {
            let _ = item.is_ok();
            count += 1;
            assert!(count <= 2048);
        }
    }
}

#[test]
fn appended_attribute_is_read_from_where_the_buffer_ended() {
    for payload in [&b""[..], b"a", b"abcd", b"abcde"] {
        let mut dst = vec![7u8; 5];
        append_nla(ORDER, &mut dst, 9, payload);
        assert_eq!(dst[..5], [7u8; 5]);
        assert_eq!(dst.len(), 5 + nla_align(4 + payload.len()));
        assert!(dst[9 + payload.len()..].iter().all(|b| *b == 0));
        let list = parse_nlas(ORDER, &dst[5..]);
        assert!(list.error.is_none());
        assert_eq!(list.attrs.len(), 1);
        assert_eq!(list.attrs[0].typ, 9);
        assert_eq!(list.attrs[0].value, payload);
    }
}

#[test]
fn parse_nlas_does_not_panic_on_random_data() {
    for seed in 0..200u64 {
        let data = scrambled(seed + 1000, (seed as usize * 7) % 512);
        let list = parse_nlas(ORDER, &data);
        assert!(list.attrs.len() <= data.len());
    }
}

#[test]
fn parse_addr_event_no_panic_on_random_payload() {
    let filters = IgnoreFilters::new(&[], &[], 0);
    for seed in 0..200u64 {
        let data = scrambled(seed + 2000, (seed as usize * 3) % 256);
        let typ = if seed % 2 == 0 { RTM_NEWADDR } else { RTM_DELADDR };
        let _ = parse_addr_event(ORDER, view(&data, typ), true, &filters).is_ok();
    }
}

#[test]
fn ignore_filters_works_with_flag_mask() {
    let filters = IgnoreFilters::new(&[], &[], IFA_F_TEMPORARY);
    assert_eq!(filters.flag_mask, IFA_F_TEMPORARY);
}

#[test]
fn parse_addr_event_respects_flag_and_ip_filters() {
    let addr = v6([0x240e, 0x0440, 0x0006, 0x07de, 0x4754, 0x00fa, 0x0eea, 0xbc5e]);
    let data = addr_event_data(addr, 0x01);
    let msg = view(&data, RTM_NEWADDR);

    let filters_by_flag = IgnoreFilters::new(&[], &[], IFA_F_TEMPORARY);
    let parsed = parse_addr_event(ORDER, msg, true, &filters_by_flag).expect("parse");
    assert!(parsed.is_none());

    let filters_by_ip = IgnoreFilters::new(&[addr], &[], 0);
    let parsed = parse_addr_event(ORDER, msg, true, &filters_by_ip).expect("parse");
    assert!(parsed.is_none());

    let no_filter = IgnoreFilters::new(&[], &[], 0);
    let parsed = parse_addr_event(ORDER, msg, true, &no_filter)
        .expect("parse")
        .expect("must pass");
    assert_eq!(parsed.op.addr, addr);
    assert!(matches!(parsed.op.action, RuleAction::Add));

    assert!(parse_addr_event(ORDER, msg, false, &no_filter).expect("parse").is_none());
    let gone = parse_addr_event(ORDER, view(&data, RTM_DELADDR), true, &no_filter)
        .expect("parse")
        .expect("must pass");
    assert!(matches!(gone.op.action, RuleAction::Delete));
}

#[test]
fn cidr_matcher_matches_prefixes() {
    let matcher = CidrMatcher::new(&[
        (ten(0), 8),
        (v6([0x2001, 0xdb8, 0, 0, 0, 0, 0, 0]), 32),
    ]);
    assert!(matcher.contains(IpAddr::V4([10, 1, 2, 3])));
    assert!(!matcher.contains(IpAddr::V4([11, 1, 2, 3])));
    assert!(matcher.contains(v6([0x2001, 0xdb8, 0, 0, 0, 0, 0, 1])));
    assert!(!matcher.contains(v6([0x2001, 0xdb9, 0, 0, 0, 0, 0, 1])));
}

#[test]
fn masks_compare_prefixes() {
    assert_eq!(mask_v4(0x0A01_0203, 8), 0x0A00_0000);
    assert_eq!(mask_v4(0x0A01_0203, 0), 0);
    assert_eq!(mask_v4(0x0A01_0203, 32), 0x0A01_0203);
    assert_eq!(mask_v6(u128::MAX, 1), 1u128 << 127);
    assert_eq!(mask_v6(u128::MAX, 0), 0);
    assert_eq!(mask_v6(5, 128), 5);
}

#[test]
fn addresses_are_unmapped_and_judged() {
    let mapped = v6([0, 0, 0, 0, 0, 0xFFFF, 0x0A00, 0x0001]);
    assert_eq!(unmap_addr(mapped), ten(1));
    assert_eq!(unmap_addr(unmap_addr(mapped)), ten(1));
    assert_eq!(unmap_addr(ten(1)), ten(1));
    assert!(is_valid_addr(ten(1)));
    assert!(!is_valid_addr(IpAddr::V4([0, 0, 0, 0])));
    assert!(!is_valid_addr(IpAddr::V4([127, 3, 2, 1])));
    assert!(!is_valid_addr(IpAddr::V4([169, 254, 0, 1])));
    assert!(!is_valid_addr(v6([0, 0, 0, 0, 0, 0, 0, 0])));
    assert!(!is_valid_addr(v6([0, 0, 0, 0, 0, 0, 0, 1])));
    assert!(!is_valid_addr(v6([0xfe80, 0, 0, 0, 0, 0, 0, 1])));
    assert!(is_valid_addr(v6([0x2001, 0xdb8, 0, 0, 0, 0, 0, 1])));
}

#[test]
fn snapshots_are_sorted_and_without_duplicates() {
    let filters = IgnoreFilters::new(&[ten(9)], &[], 0);
    let payloads: Vec<Vec<u8>> = vec![
        addr_event_data(ten(2), 0),
        addr_event_data(ten(1), 0),
        addr_event_data(ten(2), 0),
        addr_event_data(ten(9), 0),
        addr_event_data(IpAddr::V4([127, 0, 0, 1]), 0),
        vec![1, 2],
    ];
    let views: Vec<NetlinkMessageView<'_>> =
        payloads.iter().map(|p| view(p, RTM_NEWADDR)).collect();
    let mut keys = Vec::new();
    collect_dumped_keys(ORDER, &views, true, &filters, &mut keys);
    finish_snapshot(&mut keys);
    assert_eq!(keys, vec![IpKey::from_ip(ten(1)), IpKey::from_ip(ten(2))]);
    assert_eq!(snapshot_families(false), vec![AF_INET as u8]);
    assert_eq!(snapshot_families(true), vec![AF_INET as u8, AF_INET6 as u8]);
    let request = build_addr_dump_message(ORDER, AF_INET as u8, 9);
    assert_eq!(read_u16(ORDER, &request, 4), RTM_GETADDR);
    assert_eq!(read_u32(ORDER, &request, 8), 9);
}

#[test]
fn build_rule_dump_message_fields() {
    let msg = build_rule_dump_message(ORDER, AF_INET6, 123);
    let mut iter = NetlinkMessageIter::new(ORDER, &msg);
    let item = iter.next().expect("message").expect("whole");
    assert_eq!(item.header.nlmsg_type, RTM_GETRULE);
    assert_eq!(item.header.nlmsg_seq, 123);
    let rtm = read_rtmsg(ORDER, item.data).expect("rtmsg");
    assert_eq!(rtm.rtm_family as i32, AF_INET6);
}

fn rule_data(target: IpAddr, pref: u32, table: u32) -> Vec<u8> {
    let mut data = Vec::new();
    let (family, len) = match target {
        IpAddr::V4(_) => (AF_INET, 32),
        IpAddr::V6(_) => (AF_INET6, 128),
    };
    push_rtmsg(ORDER, &mut data, no_rtmsg(family, len));
    append_nla_u32(ORDER, &mut data, FRA_ATTR_PRIORITY, pref);
    append_nla_u32(ORDER, &mut data, FRA_ATTR_TABLE, table);
    append_nla(ORDER, &mut data, FRA_ATTR_DST, &octets(target));
    data
}

#[test]
fn parse_cleanup_rule_addr_matches_context() {
    let target = v6([0x240e, 0x0440, 0x0006, 0x07de, 0x5b6b, 0x04d7, 0x4147, 0x8af8]);
    let data = rule_data(target, 1900, 254);
    let ctx = RuleContext {
        pref: 1900,
        table_id: 254,
    };

    let parsed = parse_cleanup_rule_addr(ORDER, view(&data, RTM_NEWRULE), ctx, AF_INET6)
        .expect("parse")
        .expect("must match");
    assert_eq!(parsed, target);

    let other = RuleContext {
        pref: 1901,
        table_id: 254,
    };
    assert!(parse_cleanup_rule_addr(ORDER, view(&data, RTM_NEWRULE), other, AF_INET6)
        .expect("parse")
        .is_none());
}

#[test]
fn own_rules_are_found_in_a_dump() {
    let ctx = RuleContext {
        pref: 1900,
        table_id: 2000,
    };
    let mut own = Vec::new();
    build_rule_message_into(
        ORDER,
        &mut own,
        ctx,
        RuleOp {
            addr: ten(5),
            action: RuleAction::Add,
        },
        7,
    );
    let own_data = own[NLMSG_HEADER_LEN..].to_vec();
    let packets = vec![
        [
            message(RTM_NEWRULE, 3, &own_data),
            message(RTM_NEWRULE, 3, &rule_data(ten(6), 1, 2000)),
            message(RTM_NEWRULE, 3, &own_data),
        ]
        .concat(),
        message(NLMSG_DONE, 3, &[0, 0, 0, 0]),
    ];
    let ring = ring_of(&packets);
    let mut seen = IpSet::new();
    let mut out = Vec::new();
    let chunk = recv_step(ORDER, &ring, 1, 3);
    let polled = poll_cleanup_targets(ORDER, chunk, ctx, AF_INET, &mut seen, &mut out);
    assert!(matches!(polled, Ok(CleanupDumpPoll::Pending)));
    assert_eq!(out, vec![IpKey::from_ip(ten(5))]);
    let chunk = recv_step(ORDER, &ring, 2, 3);
    let polled = poll_cleanup_targets(ORDER, chunk, ctx, AF_INET, &mut seen, &mut out);
    assert!(matches!(polled, Ok(CleanupDumpPoll::Done)));
    assert_eq!(out.len(), 1);
}

#[test]
fn dumps_end_with_their_errors() {
    let ring = ring_of(&[ack(4, EPERM)]);
    let chunk = recv_step(ORDER, &ring, 1, 4);
    assert!(chunk.error.is_some());
    assert!(chunk.poll().is_err());
    let other = recv_step(ORDER, &ring, 1, 5);
    assert!(other.error.is_none());
    assert!(matches!(other.poll(), Ok(DumpPoll::Continue)));
    let ring = ring_of(&[message(NLMSG_DONE, 4, &[0, 0, 0, 0])]);
    assert!(matches!(recv_step(ORDER, &ring, 1, 4).poll(), Ok(DumpPoll::Done)));
    assert!(after_dump_wait(true).is_ok());
    assert!(after_dump_wait(false).is_err());
}

#[test]
fn build_pbr_rule_message_contains_mark_mask_table_and_pref() {
    let msg = build_pbr_rule_message(ORDER, RTM_NEWRULE, AF_INET, 0x14, 0xff, 2025, 2025, 77);
    let mut iter = NetlinkMessageIter::new(ORDER, &msg);
    let item = iter.next().expect("message").expect("whole");
    assert_eq!(item.header.nlmsg_type, RTM_NEWRULE);
    assert_eq!(item.header.nlmsg_seq, 77);

    let rtm = read_rtmsg(ORDER, item.data).expect("rtmsg");
    assert_eq!(rtm.rtm_family as i32, AF_INET);

    let mut mark = None;
    let mut mask = None;
    let mut table = None;
    let mut pref = None;
    let list = parse_nlas(ORDER, &item.data[RTMSG_LEN..]);
    assert!(list.error.is_none());
    for nla in &list.attrs {
        let value = read_u32(ORDER, nla.value, 0);
        match nla.typ {
            FRA_ATTR_FWMARK => mark = Some(value),
            FRA_ATTR_FWMASK => mask = Some(value),
            FRA_ATTR_TABLE => table = Some(value),
            FRA_ATTR_PRIORITY => pref = Some(value),
            _ => {}
        }
    }

    assert_eq!(mark, Some(0x14));
    assert_eq!(mask, Some(0xff));
    assert_eq!(table, Some(2025));
    assert_eq!(pref, Some(2025));
}

#[test]
fn messages_hold_the_low_byte_of_the_family() {
    for family in [AF_INET, AF_INET + 256, AF_INET - 256] {
        let rule = build_pbr_rule_message(ORDER, RTM_NEWRULE, family, 1, 1, 1, 1, 1);
        assert_eq!(rule[NLMSG_HEADER_LEN], AF_INET as u8);
        let route = build_pbr_route_message(ORDER, RTM_NEWROUTE, family, 1, 1, 1);
        assert_eq!(route[NLMSG_HEADER_LEN], AF_INET as u8);
        let dump = build_rule_dump_message(ORDER, family, 1);
        assert_eq!(dump[NLMSG_HEADER_LEN], AF_INET as u8);
    }
}

#[test]
fn build_pbr_route_message_targets_local_default_route() {
    let msg = build_pbr_route_message(ORDER, RTM_NEWROUTE, AF_INET6, 2025, 1, 88);
    let mut iter = NetlinkMessageIter::new(ORDER, &msg);
    let item = iter.next().expect("message").expect("whole");
    assert_eq!(item.header.nlmsg_type, RTM_NEWROUTE);
    assert_eq!(item.header.nlmsg_seq, 88);

    let rtm = read_rtmsg(ORDER, item.data).expect("rtmsg");
    assert_eq!(rtm.rtm_family as i32, AF_INET6);
    assert_eq!(rtm.rtm_dst_len, 0);
    assert_eq!(rtm.rtm_table, 0);
    assert_eq!(rtm.rtm_type, RTN_LOCAL);
    assert_eq!(rtm.rtm_scope, RT_SCOPE_HOST);

    let mut table = None;
    let mut oif = None;
    let list = parse_nlas(ORDER, &item.data[RTMSG_LEN..]);
    assert!(list.error.is_none());
    for nla in &list.attrs {
        let value = read_u32(ORDER, nla.value, 0);
        match nla.typ {
            FRA_ATTR_TABLE => table = Some(value),
            RTA_ATTR_OIF => oif = Some(value),
            _ => {}
        }
    }

    assert_eq!(table, Some(2025));
    assert_eq!(oif, Some(1));
}

fn request(action: PbrAction) -> PbrRequest {
    PbrRequest {
        action,
        family: PbrFamily::Ipv4,
        mark: 0x14,
        mask: 0xff,
        table: 2025,
        pref: 1000,
    }
}

#[test]
fn pbr_requests_run_through_their_steps() {
    let mut step = first_step(PbrAction::Apply);
    let mut ops = Vec::new();
    let mut seq = 0u32;
    while let Some(msg) = build_step_message(ORDER, &mut seq, request(PbrAction::Apply), step, 1) {
        ops.push(msg.op);
        let class = if ops.len() == 2 { PbrAckClass::Noop } else { PbrAckClass::Applied };
        step = next_step(PbrAction::Apply, step, class).expect("step");
    }
    assert_eq!(
        ops,
        vec![
            PbrOp::DeleteRule,
            PbrOp::DeleteRule,
            PbrOp::DeleteRoute,
            PbrOp::ReplaceRoute,
            PbrOp::AddRule
        ]
    );
    assert!(next_step(PbrAction::Apply, PbrStep::AddRule, PbrAckClass::KernelErr).is_err());
    assert_eq!(first_step(PbrAction::Status), PbrStep::Finished);

    let mut step = first_step(PbrAction::Cleanup);
    let mut count = 0usize;
    while step != PbrStep::Finished {
        step = next_step(PbrAction::Cleanup, step, PbrAckClass::Applied).expect("step");
        count += 1;
    }
    assert_eq!(count, DELETE_RULE_LIMIT + 1);
}

#[test]
fn pbr_requests_are_shown() {
    assert_eq!(
        request_summary(request(PbrAction::Apply)),
        "pbr applied family=ipv4 mark=0x14/0xff table=2025 pref=1000"
    );
    assert!(request_summary(request(PbrAction::Cleanup)).starts_with("pbr cleaned "));
    assert!(request_summary(request(PbrAction::Status)).starts_with("pbr target "));
    assert!(matches!(loopback_ifindex(1), Ok(1)));
    assert!(loopback_ifindex(0).is_err());
}

#[test]
fn pbr_acknowledgements_are_classified() {
    let info = |errno: i32| parse_ack_error_info(ORDER, &ack(1, errno)[16..]).expect("info");
    let missing = info(ENOENT);
    let class = classify_pbr_ack(PbrOp::DeleteRule, missing.as_ref());
    assert_eq!(class, PbrAckClass::Noop);
    let there = info(EEXIST);
    assert_eq!(classify_pbr_ack(PbrOp::AddRule, there.as_ref()), PbrAckClass::Noop);
    assert_eq!(classify_pbr_ack(PbrOp::AddRule, None), PbrAckClass::Applied);
    let refused = info(EPERM);
    assert_eq!(
        classify_pbr_ack(PbrOp::ReplaceRoute, refused.as_ref()),
        PbrAckClass::KernelErr
    );
    let ring = ring_of(&[ack(8, 0), ack(9, ENOENT)]);
    assert!(matches!(find_pbr_ack(ORDER, &ring, 1, 9, PbrOp::DeleteRule), Ok(None)));
    assert!(matches!(
        find_pbr_ack(ORDER, &ring, 2, 9, PbrOp::DeleteRule),
        Ok(Some(PbrAckClass::Noop))
    ));
    assert!(wait_pbr_ack(true).is_ok());
    assert!(wait_pbr_ack(false).is_err());
}

#[test]
fn classify_wait_error_kind_contract() {
    let mut tracker = AckTracker::default();
    tracker.prepare(3);
    assert_eq!(classify_wait_error(&tracker).kind, AckWaitErrorKind::Timeout);

    tracker.count_seq_mismatch = 1;
    tracker.count_non_ack = 0;
    assert_eq!(
        classify_wait_error(&tracker).kind,
        AckWaitErrorKind::SeqMismatch
    );

    tracker.count_seq_mismatch = 0;
    tracker.count_non_ack = 1;
    assert_eq!(classify_wait_error(&tracker).kind, AckWaitErrorKind::NonAck);
}

#[test]
fn ack_anomaly_timeout_classifies() {
    let mut tracker = AckTracker::default();
    tracker.prepare(2);
    let err = classify_wait_error(&tracker);
    assert_eq!(err.kind, AckWaitErrorKind::Timeout);
    assert_eq!(err.pending, 2);
    assert!(err.to_app_error().to_text().contains("timeout"));
}

#[test]
fn ack_anomaly_seq_mismatch_classifies() {
    let mut tracker = AckTracker::default();
    tracker.prepare(2);
    tracker.count_seq_mismatch = 3;
    let err = classify_wait_error(&tracker);
    assert_eq!(err.kind, AckWaitErrorKind::SeqMismatch);
    assert!(err.to_app_error().to_text().contains("seq_mismatch"));
}

#[test]
fn ack_anomaly_non_ack_classifies() {
    let mut tracker = AckTracker::default();
    tracker.prepare(2);
    tracker.count_non_ack = 4;
    let err = classify_wait_error(&tracker);
    assert_eq!(err.kind, AckWaitErrorKind::NonAck);
    assert!(err.to_app_error().to_text().contains("non_ack"));
}

#[test]
fn ack_anomaly_kernel_errno_classifies() {
    let op = RuleOp {
        addr: ten(1),
        action: RuleAction::Add,
    };
    let status = NetlinkAckStatus {
        errno: EPERM,
        ext_msg: ExtAckText::from_str("operation not permitted"),
        ext_offset: Some(12),
    };
    assert_eq!(classify_ack_for_op(op, Some(&status)), RuleAckClass::KernelErr);
}

#[test]
fn classify_ack_for_op_contract() {
    let add = RuleOp {
        addr: ten(1),
        action: RuleAction::Add,
    };
    let del = RuleOp {
        addr: ten(1),
        action: RuleAction::Delete,
    };

    assert_eq!(classify_ack_for_op(add, None), RuleAckClass::Applied);
    assert_eq!(classify_ack_for_op(del, None), RuleAckClass::Applied);

    let exist = NetlinkAckStatus {
        errno: EEXIST,
        ext_msg: None,
        ext_offset: None,
    };
    let enoent = NetlinkAckStatus {
        errno: ENOENT,
        ext_msg: None,
        ext_offset: None,
    };
    let failed = NetlinkAckStatus {
        errno: EPERM,
        ext_msg: None,
        ext_offset: None,
    };

    assert_eq!(classify_ack_for_op(add, Some(&exist)), RuleAckClass::EexistNoop);
    assert_eq!(classify_ack_for_op(del, Some(&enoent)), RuleAckClass::EnoentNoop);
    assert_eq!(classify_ack_for_op(add, Some(&failed)), RuleAckClass::KernelErr);
}

#[test]
fn build_rule_message_fields() {
    let mut buf = Vec::new();
    let ctx = RuleContext {
        pref: 1900,
        table_id: 254,
    };
    let op = RuleOp {
        addr: IpAddr::V4([10, 1, 2, 3]),
        action: RuleAction::Add,
    };

    build_rule_message_into(ORDER, &mut buf, ctx, op, 777);
    assert!(buf.len() >= NLMSG_HEADER_LEN + RTMSG_LEN);

    let mut iter = NetlinkMessageIter::new(ORDER, &buf);
    let item = iter.next().expect("message").expect("whole");
    assert_eq!(item.header.nlmsg_type, RTM_NEWRULE);
    assert_eq!(item.header.nlmsg_seq, 777);

    let rtm = read_rtmsg(ORDER, item.data).expect("rtmsg");
    assert_eq!(rtm.rtm_family as i32, AF_INET);
    assert_eq!(rtm.rtm_dst_len, 32);

    let removal = RuleOp {
        addr: op.addr,
        action: RuleAction::Delete,
    };
    buf.clear();
    build_rule_message_into(ORDER, &mut buf, ctx, removal, 778);
    assert_eq!(read_u16(ORDER, &buf, 4), RTM_DELRULE);
}

#[test]
fn acknowledgements_find_their_changes() {
    let ctx = RuleContext {
        pref: 1,
        table_id: 2,
    };
    let op = |last: u8| RuleOp {
        addr: ten(last),
        action: RuleAction::Add,
    };
    let mut next = u32::MAX - 1;
    let batch = start_apply_rules_batch(ORDER, &mut next, ctx, &[op(1), op(2), op(3)]);
    assert_eq!(batch.first_seq, u32::MAX - 1);
    assert_eq!(batch.messages.len(), 3);
    assert_eq!(read_u32(ORDER, &batch.messages[2], 8), 1);

    let mut tracker = AckTracker::default();
    tracker.prepare(3);
    let ring = ring_of(&[
        [ack(1, EPERM), ack(u32::MAX, 0), ack(77, 0)].concat(),
        message(RTM_NEWRULE, u32::MAX - 1, &[]),
    ]);
    drain_apply_ack_messages(ORDER, &ring, 2, batch.first_seq, 3, &mut tracker).expect("drained");
    assert_eq!(tracker.pending(), 1);
    assert!(!tracker.seen_at(0));
    assert!(tracker.seen_at(1));
    assert!(tracker.status_at(1).is_none());
    assert_eq!(tracker.status_at(2).map(|s| s.errno), Some(EPERM));
    assert_eq!(tracker.count_seq_mismatch, 1);
    assert_eq!(tracker.count_non_ack, 1);
}

#[test]
fn acknowledgements_carry_texts() {
    let mut data = Vec::new();
    push_u32(ORDER, &mut data, (-22i32) as u32);
    push_header(ORDER, &mut data, header(16, 0, 5));
    append_nla(ORDER, &mut data, NLMSGERR_ATTR_MSG, b"bad rule\0");
    append_nla_u32(ORDER, &mut data, NLMSGERR_ATTR_OFFS, 44);
    let info = parse_ack_error_info(ORDER, &data).expect("info").expect("error");
    assert_eq!(info.errno, 22);
    assert_eq!(info.ext_msg.as_ref().map(|t| t.as_str().to_string()), Some("bad rule".to_string()));
    assert_eq!(info.ext_offset, Some(44));
    assert!(matches!(parse_ack_errno(ORDER, &data), Ok(Some(22))));
    assert!(parse_ack_errno(ORDER, &[1, 2]).is_err());
    assert!(ExtAckText::from_str("").is_none());
}

#[test]
fn route_addr_groups_ipv4_ipv6() {
    let v4_only = route_addr_groups(false);
    let v4_mask = 1u32 << (RTNLGRP_IPV4_IFADDR - 1);
    let v6_mask = 1u32 << (RTNLGRP_IPV6_IFADDR - 1);
    assert_eq!(v4_only, v4_mask);

    let dual = route_addr_groups(true);
    assert_eq!(dual, v4_mask | v6_mask);
}

#[test]
fn mmsg_ring_ensure_slots_grows() {
    let mut ring = MmsgRxRing::new(2, 4096);
    assert_eq!(ring.slots(), 2);
    ring.ensure_slots(8);
    assert_eq!(ring.slots(), 8);
}

#[test]
fn mmsg_ring_shrink_slots_contract() {
    let mut ring = MmsgRxRing::new(8, 4096);
    ring.shrink_slots(2);
    assert_eq!(ring.slots(), 2);
    ring.shrink_slots(0);
    assert_eq!(ring.slots(), 1);
}

#[test]
fn ring_packets_keep_their_bytes() {
    let mut ring = ring_of(&[vec![1, 2, 3], vec![4]]);
    assert_eq!(ring.packet(0), &[1, 2, 3]);
    assert_eq!(ring.packet(1), &[4]);
    ring.ensure_slots(5);
    assert_eq!(ring.packet(0), &[1, 2, 3]);
    assert_eq!(ring.packet(4), &[] as &[u8]);
    ring.clear_lengths();
    assert_eq!(ring.packet(0), &[] as &[u8]);
}

#[test]
fn messages_are_read_back() {
    for order in [ByteOrder::Little, ByteOrder::Big] {
        let mut body = Vec::new();
        push_rtmsg(order, &mut body, no_rtmsg(AF_INET, 24));
        append_nla(order, &mut body, 3, &[9, 8, 7]);
        append_nla_u32(order, &mut body, 4, 0x0102_0304);
        let msg = build_netlink_request(order, 30, 5, 99, &body);
        let mut iter = NetlinkMessageIter::new(order, &msg);
        let item = iter.next().expect("message").expect("whole");
        assert_eq!(item.header.nlmsg_type, 30);
        assert_eq!(item.header.nlmsg_flags, 5);
        assert_eq!(item.header.nlmsg_seq, 99);
        assert_eq!(item.data, &body[..]);
        assert!(iter.next().is_none());
        assert_eq!(read_rtmsg(order, item.data), Some(no_rtmsg(AF_INET, 24)));
        let list = parse_nlas(order, &item.data[RTMSG_LEN..]);
        assert_eq!(list.attrs.len(), 2);
        assert_eq!(list.attrs[0].value, &[9, 8, 7]);
        assert_eq!(read_u32(order, list.attrs[1].value, 0), 0x0102_0304);
        let mut ifa = Vec::new();
        push_ifaddrmsg(order, &mut ifa, no_ifaddr(AF_INET6));
        assert_eq!(read_ifaddrmsg(order, &ifa), Some(no_ifaddr(AF_INET6)));
    }
    assert_eq!(read_rtmsg(ORDER, &[0; 11]), None);
}

#[test]
fn broken_messages_are_reported() {
    let mut msg = Vec::new();
    push_header(ORDER, &mut msg, header(64, 1, 1));
    let mut iter = NetlinkMessageIter::new(ORDER, &msg);
    assert!(matches!(iter.next(), Some(Err(_))));
    assert!(iter.next().is_none());
    assert!(parse_nlas(ORDER, &[2, 0, 0, 0]).error.is_some());
}

#[test]
fn numbers_are_aligned_and_reserved() {
    assert_eq!(nlmsg_align(17), 20);
    assert_eq!(nla_align(4), 4);
    let mut next = u32::MAX;
    assert_eq!(reserve_seq_block(&mut next, 3), u32::MAX);
    assert_eq!(next, 3);
    assert_eq!(next_seq(&mut next), 3);
    assert_eq!(next, 4);
    let mut zero = 0u32;
    assert_eq!(next_seq(&mut zero), 1);
}

#[test]
fn the_host_has_a_byte_order() {
    assert_eq!(host_byte_order(), byte_order_of(1u32.to_ne_bytes()));
    assert_eq!(byte_order_of([0, 0, 0, 1]), ByteOrder::Big);
}

#[test]
fn results_of_calls_are_read() {
    let io = |code: i32| IoError {
        raw_os_error: Some(code),
        kind: IoKind::Other,
        text: String::new(),
    };
    assert!(matches!(recv_outcome(Ok(3)), RecvOutcome::Packets(3)));
    assert!(matches!(recv_outcome(Ok(0)), RecvOutcome::Idle));
    assert!(matches!(recv_outcome(Err(io(EAGAIN))), RecvOutcome::Idle));
    assert!(matches!(recv_outcome(Err(io(EPERM))), RecvOutcome::Failed(_)));
    assert!(matches!(send_step(0, 3, 2), SendStep::More(2)));
    assert!(matches!(send_step(2, 3, 1), SendStep::Done));
    assert!(matches!(send_step(0, 3, 0), SendStep::WroteNone));
    assert!(matches!(send_step(0, 3, -1), SendStep::Failed));
}
