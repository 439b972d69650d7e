use addrsyncd::bytes::{push_u32, ByteOrder};
use addrsyncd::config::Options;
use addrsyncd::daemon::batch_apply::{
    batch_sent, into_inflight, min_deadline, next_deadline, PendingStart,
};
use addrsyncd::daemon::cleanup_run::{
    ack_wait, after_ack_wait, after_loop, cleanup_families, run_result, AckWait, AfterLoop,
    CleanupRun,
};
use addrsyncd::daemon::event_loop::{
    event_source, handle_signal, loop_finished, start_route_drain, wait_outcome, EventSource,
    SignalAction, WaitOutcome,
};
use addrsyncd::daemon::lifecycle::{
    drain_step, started_fields, stopped_fields, timer_spec, DrainStep, TimerSpec,
};
use addrsyncd::daemon::maintenance::{maintenance_batch_sent, slice_goes_on, MaintenanceAction};
use addrsyncd::daemon::resync_plan::{fill_resync_chunk, fill_tracked_cleanup_chunk};
use addrsyncd::daemon::state::{
    cleanup_source_name, rule_action_name, ApplyResult, CleanupSource, CleanupSummary,
    CompletedBatch, Daemon, EventLoopState, InflightOwner, MaintenanceJob, RouteBudgetState,
    BATCH_NOOP_LOG_INTERVAL, EPOLL_TAG_ROUTE, EPOLL_TAG_RULE, EPOLL_TAG_SIGNAL, EPOLL_TAG_TIMER,
    MAINTENANCE_OP_BUDGET, ROUTE_DRAIN_MAX_BUDGET, ROUTE_DRAIN_MIN_BUDGET,
    STARTUP_CLEANUP_RETRY_LIMIT,
};
use addrsyncd::error::AppError;
use addrsyncd::ip_key::{IpAddr, IpKey};
use addrsyncd::logger::{schema_violation, Level, LogEventSchema};
use addrsyncd::netlink::codec::{append_nla, push_header, NetlinkHeader, NetlinkMessageIter};
use addrsyncd::netlink::linux_types::{push_ifaddrmsg, IfAddrMsg};
use addrsyncd::netlink::rule::{build_rule_message_into, RuleAction, RuleOp};
use addrsyncd::netlink::socket::MmsgRxRing;
use addrsyncd::sys::{
    ArchNumbers, AF_INET, AF_INET6, EEXIST, ENOENT, IFA_ADDRESS, NLMSG_DONE, NLMSG_ERROR, RTM_DELADDR,
    RTM_NEWADDR, RTM_NEWRULE,
};
use rustc_hash::FxHashSet;

const ARCH: ArchNumbers = ArchNumbers {
    enosys: 38,
    eopnotsupp: 95,
    eprotonosupport: 93,
    sigusr1: 10,
};

#[test]
fn cleanup_source_name_values() {
    assert_eq!(cleanup_source_name(CleanupSource::Owned), "tracked");
    assert_eq!(cleanup_source_name(CleanupSource::Dump), "dump");
}

#[test]
fn route_budget_state_scales_up_and_down() {
    let mut budget = RouteBudgetState::default();
    let base = budget.current;

    budget.update(base, true);
    budget.update(base, true);
    assert!(budget.current >= base);

    for _ in 0..8 {
        budget.update(1, false);
    }
    assert!(budget.current <= ROUTE_DRAIN_MAX_BUDGET);
    assert!(budget.current >= ROUTE_DRAIN_MIN_BUDGET);
}

#[test]
fn noop_log_interval_nonzero() {
    assert!(BATCH_NOOP_LOG_INTERVAL >= 1_000_000_000);
}

#[test]
fn epoll_tag_constants_are_distinct() {
    assert_ne!(EPOLL_TAG_ROUTE, EPOLL_TAG_SIGNAL);
    assert_ne!(EPOLL_TAG_ROUTE, EPOLL_TAG_TIMER);
    assert_ne!(EPOLL_TAG_ROUTE, EPOLL_TAG_RULE);
}

// ---------------------------------------------------------------------------
// A daemon and the system it talks to
// ---------------------------------------------------------------------------

const SECOND: u64 = 1_000_000_000;

fn ten(last: u8) -> IpAddr {
    IpAddr::V4([10, 0, 0, last])
}

fn key(last: u8) -> IpKey {
    IpKey::from_ip(ten(last))
}

fn options(batch_max: usize) -> Options {
    Options {
        work_dir: b"/work".to_vec(),
        config_path: b"/work/addrsyncd.toml".to_vec(),
        log_level: Level::Info,
        ipv6: false,
        debounce_ms: 500,
        debounce_max_ms: 5000,
        batch_max,
        log_file: b"/work/log".to_vec(),
        pref: 1900,
        table_id: 254,
        ignore_addr_flag_mask: 0,
        ignore_ips: Vec::new(),
        ignore_cidrs: Vec::new(),
    }
}

fn header(len: usize, typ: u16, seq: u32) -> NetlinkHeader {
    NetlinkHeader {
        nlmsg_len: len as u32,
        nlmsg_type: typ,
        nlmsg_flags: 0,
        nlmsg_seq: seq,
        nlmsg_pid: 0,
    }
}

fn message(typ: u16, seq: u32, data: &[u8]) -> Vec<u8> {
    let mut out = Vec::new();
    push_header(ByteOrder::Little, &mut out, header(16 + data.len(), typ, seq));
    out.extend_from_slice(data);
    out
}

fn ack(seq: u32, errno: i32) -> Vec<u8> {
    let mut data = Vec::new();
    push_u32(ByteOrder::Little, &mut data, (-errno) as u32);
    push_header(ByteOrder::Little, &mut data, header(36, 0, seq));
    message(NLMSG_ERROR, seq, &data)
}

fn ring_of(packets: &[Vec<u8>]) -> MmsgRxRing {
    let size = 4096;
    let mut ring = MmsgRxRing::new(packets.len(), size);
    let mut lengths = Vec::new();
    for (i, p) in packets.iter().enumerate() {
        ring.slab[i * size..i * size + p.len()].copy_from_slice(p);
        lengths.push(p.len() as u32);
    }
    ring.update_lengths(&lengths);
    ring
}

fn announcement(typ: u16, addr: IpAddr) -> Vec<u8> {
    let mut data = Vec::new();
    push_ifaddrmsg(
        ByteOrder::Little,
        &mut data,
        IfAddrMsg {
            ifa_family: AF_INET as u8,
            ifa_prefixlen: 24,
            ifa_flags: 0,
            ifa_scope: 0,
            ifa_index: 3,
        },
    );
    match addr {
        IpAddr::V4(o) => append_nla(ByteOrder::Little, &mut data, IFA_ADDRESS, &o),
        IpAddr::V6(o) => append_nla(ByteOrder::Little, &mut data, IFA_ADDRESS, &o),
    }
    message(typ, 0, &data)
}

/// The rules of the system, as the bodies of the messages that made them.
struct System {
    rules: Vec<Vec<u8>>,
    addresses: Vec<IpKey>,
    refuse: Option<i32>,
}

impl System {
    fn apply(&mut self, msg: &[u8]) -> Vec<u8> {
        let mut iter = NetlinkMessageIter::new(ByteOrder::Little, msg);
        let item = iter.next().expect("message").expect("whole");
        let seq = item.header.nlmsg_seq;
        if let Some(errno) = self.refuse {
            return ack(seq, errno);
        }
        let place = self.rules.iter().position(|r| r[..] == item.data[..]);
        match (item.header.nlmsg_type, place) {
            (RTM_NEWRULE, Some(_)) => ack(seq, EEXIST),
            (RTM_NEWRULE, None) => {
                self.rules.push(item.data.to_vec());
                ack(seq, 0)
            }
            (_, Some(i)) => {
                self.rules.remove(i);
                ack(seq, 0)
            }
            (_, None) => ack(seq, ENOENT),
        }
    }

    fn send(&mut self, messages: &[Vec<u8>]) -> Vec<Vec<u8>> {
        messages.iter().map(|m| self.apply(m)).collect()
    }

    fn dump(&self, seq: u32) -> Vec<Vec<u8>> {
        let mut packets: Vec<Vec<u8>> =
            self.rules.iter().map(|r| message(RTM_NEWRULE, seq, r)).collect();
        packets.push(message(NLMSG_DONE, seq, &[0, 0, 0, 0]));
        packets
    }
}

fn acknowledge(d: &mut Daemon, state: &mut EventLoopState, replies: &[Vec<u8>], now: u64) {
    let ring = ring_of(replies);
    d.absorb_acks(state, &ring, replies.len()).expect("acks");
    d.settle_inflight(state, now);
}

/// One round of the event loop, with every message answered at once.
fn round(d: &mut Daemon, state: &mut EventLoopState, sys: &mut System, now: u64) {
    let step = d.drive_reactor(state, now);
    if let PendingStart::Send(batch) = step.flush {
        let replies = sys.send(&batch.messages);
        batch_sent(state, batch, now);
        acknowledge(d, state, &replies, now);
        return;
    }
    if state.inflight.is_some() {
        return;
    }
    let mut budget = MAINTENANCE_OP_BUDGET;
    while slice_goes_on(budget, now, now) {
        let result = d.maintenance_step(state, &mut budget, now);
        match result.action {
            MaintenanceAction::Yield => break,
            MaintenanceAction::Again => {}
            MaintenanceAction::StartDump { seq, .. } => {
                d.dump_started(state, seq);
                let packets = sys.dump(seq);
                let ring = ring_of(&packets);
                let got = d.dump_received(state, &ring, packets.len(), now);
                assert!(got.failed.is_none());
            }
            MaintenanceAction::PollDump { .. } => panic!("the dump was read at once"),
            MaintenanceAction::Snapshot => d.build_resync_plan(state, sys.addresses.clone()),
            MaintenanceAction::SendBatch(batch) => {
                let replies = sys.send(&batch.messages);
                maintenance_batch_sent(state, batch, now);
                acknowledge(d, state, &replies, now);
                break;
            }
        }
    }
}

fn settle(d: &mut Daemon, state: &mut EventLoopState, sys: &mut System, now: u64) {
    for _ in 0..64 {
        round(d, state, sys, now);
    }
}

fn owned(d: &Daemon) -> Vec<IpKey> {
    d.owned_ips.sorted_keys()
}

#[test]
fn daemon_starts_follows_and_stops() {
    let mut sys = System {
        rules: Vec::new(),
        addresses: vec![key(1), key(2), key(3)],
        refuse: None,
    };
    let mut d = Daemon::new(options(2), ByteOrder::Little);
    let mut state = EventLoopState::new();

    // A rule that an earlier process left behind is deleted, and the addresses get their rules.
    let mut left = Vec::new();
    build_rule_message_into(
        ByteOrder::Little,
        &mut left,
        d.rule_ctx,
        RuleOp { addr: ten(9), action: RuleAction::Add },
        1,
    );
    sys.rules.push(left[16..].to_vec());
    settle(&mut d, &mut state, &mut sys, SECOND);
    assert_eq!(owned(&d), vec![key(1), key(2), key(3)]);
    assert_eq!(sys.rules.len(), 3);
    assert!(!state.startup_cleanup_pending);

    // Announcements wait for the quiet time, and the last one of an address counts.
    let packets = vec![
        announcement(RTM_NEWADDR, ten(4)),
        announcement(RTM_DELADDR, ten(2)),
        announcement(RTM_NEWADDR, ten(5)),
        announcement(RTM_DELADDR, ten(5)),
    ];
    let mut ring = ring_of(&packets);
    let mut drain = start_route_drain(&state);
    let events = d.handle_route_packets(&mut state, &mut ring, packets.len(), &mut drain);
    assert_eq!(events.len(), 4);
    let report = d.finish_route_drain(&mut state, &mut ring, drain, 2 * SECOND);
    assert_eq!(report.parse_failed, 0);
    round(&mut d, &mut state, &mut sys, 2 * SECOND);
    assert_eq!(owned(&d), vec![key(1), key(2), key(3)]);
    assert_eq!(next_deadline(&state, 2 * SECOND), Some((2 * SECOND + SECOND / 2) as u128));
    settle(&mut d, &mut state, &mut sys, 3 * SECOND);
    settle(&mut d, &mut state, &mut sys, 4 * SECOND);
    assert_eq!(owned(&d), vec![key(1), key(3), key(4)]);
    assert_eq!(sys.rules.len(), 3);
    assert!(state.pending.is_empty());

    // A signal makes the rules agree with the addresses again.
    assert_eq!(handle_signal(&mut state, 10, ARCH), SignalAction::Resync);
    sys.addresses = vec![key(4), key(6)];
    settle(&mut d, &mut state, &mut sys, 5 * SECOND);
    assert_eq!(owned(&d), vec![key(4), key(6)]);
    assert_eq!(sys.rules.len(), 2);

    // At the end every rule of this process is removed.
    assert!(!loop_finished(&state));
    assert_eq!(handle_signal(&mut state, 15, ARCH), SignalAction::Stop);
    settle(&mut d, &mut state, &mut sys, 6 * SECOND);
    assert!(loop_finished(&state));
    assert_eq!(state.shutdown_cleanup.removed, 2);
    assert!(sys.rules.is_empty());
    assert!(owned(&d).is_empty());
    assert!(matches!(after_loop(&state), AfterLoop::Clean(2)));
}

#[test]
fn changes_that_are_not_acknowledged_are_made_up_for() {
    let mut d = Daemon::new(options(8), ByteOrder::Little);
    let mut state = EventLoopState::new();
    state.startup_cleanup_pending = false;
    state.pending.insert(key(1), RuleAction::Add);
    state.pending.insert(key(2), RuleAction::Delete);
    state.quiet_deadline = Some(0);
    let step = d.drive_reactor(&mut state, SECOND);
    let batch = match step.flush {
        PendingStart::Send(batch) => batch,
        _ => panic!("nothing to send"),
    };
    assert_eq!(batch.ops.len(), 1);
    assert_eq!(batch.input_count, 2);
    assert_eq!(batch.noop_prefilter, 1);
    batch_sent(&mut state, batch, SECOND);
    assert!(d.drive_reactor(&mut state, 5 * SECOND).timed_out.is_none());
    let late = d.drive_reactor(&mut state, 6 * SECOND).timed_out.expect("late");
    assert_eq!(late.pending, 1);
    assert!(late.compensate);
    assert_eq!(late.unseen.len(), 1);
    assert!(state.inflight.is_none());
    assert!(state.resync_requested);
    assert!(owned(&d).is_empty());
}

#[test]
fn refused_changes_are_not_owned() {
    let mut sys = System {
        rules: Vec::new(),
        addresses: vec![key(1)],
        refuse: Some(1),
    };
    let mut d = Daemon::new(options(8), ByteOrder::Little);
    let mut state = EventLoopState::new();
    settle(&mut d, &mut state, &mut sys, SECOND);
    assert!(owned(&d).is_empty());
    sys.refuse = None;
    handle_signal(&mut state, 10, ARCH);
    settle(&mut d, &mut state, &mut sys, 2 * SECOND);
    assert_eq!(owned(&d), vec![key(1)]);
}

#[test]
fn pending_changes_without_effect_are_not_sent() {
    let mut d = Daemon::new(options(8), ByteOrder::Little);
    let mut state = EventLoopState::new();
    state.pending.insert(key(2), RuleAction::Delete);
    match d.start_pending_batch(&mut state, SECOND) {
        PendingStart::AllNoop { count_input } => assert_eq!(count_input, 1),
        _ => panic!("nothing to do"),
    }
    assert!(state.pending.is_empty());
    assert!(matches!(d.start_pending_batch(&mut state, SECOND), PendingStart::Nothing));
}

#[test]
fn lost_messages_ask_for_a_resynchronisation() {
    let d = Daemon::new(options(8), ByteOrder::Little);
    let mut state = EventLoopState::new();
    let mut broken = announcement(RTM_NEWADDR, ten(1));
    broken.truncate(20);
    let mut ring = ring_of(&[broken]);
    let mut drain = start_route_drain(&state);
    d.handle_route_packets(&mut state, &mut ring, 1, &mut drain);
    let report = d.finish_route_drain(&mut state, &mut ring, drain, SECOND);
    assert_eq!(report.parse_failed, 1);
    assert!(report.compensate);
    assert!(state.resync_requested);
    assert_eq!(state.dropped_count, 1);
}

#[test]
fn startup_cleanup_is_tried_again() {
    let mut d = Daemon::new(options(8), ByteOrder::Little);
    let mut state = EventLoopState::new();
    let mut budget = MAINTENANCE_OP_BUDGET;
    for attempt in 1..=4u8 {
        d.maintenance_step(&mut state, &mut budget, SECOND);
        let report = d.schedule_startup_cleanup_retry(&mut state, SECOND);
        assert_eq!(report.attempt, attempt);
        assert_eq!(report.retry, attempt <= STARTUP_CLEANUP_RETRY_LIMIT);
        state.startup_cleanup_retry_deadline = state.startup_cleanup_retry_deadline.map(|_| 0);
    }
    assert!(!state.startup_cleanup_pending);
    assert!(state.resync_requested);
}

#[test]
fn ring_grows_with_load_and_shrinks_in_calm() {
    let d = Daemon::new(options(8), ByteOrder::Little);
    let mut state = EventLoopState::new();
    let packets: Vec<Vec<u8>> = (0..8).map(|i| announcement(RTM_NEWADDR, ten(i))).collect();
    let mut ring = ring_of(&packets);
    let mut drain = start_route_drain(&state);
    d.handle_route_packets(&mut state, &mut ring, 8, &mut drain);
    assert_eq!(ring.slots(), 16);
    d.finish_route_drain(&mut state, &mut ring, drain, SECOND);
    for _ in 0..12 {
        assert_eq!(ring.slots(), 16);
        let drain = start_route_drain(&state);
        d.finish_route_drain(&mut state, &mut ring, drain, SECOND);
    }
    assert_eq!(ring.slots(), 8);
}

#[test]
fn ip_key_mapping_roundtrip() {
    let ip = IpAddr::V4([192, 0, 2, 9]);
    let key = IpKey::from_ip(ip);
    assert_eq!(key.into_ip(), ip);
}

#[test]
fn ip_key_roundtrip() {
    let v4 = ten(1);
    let v6 = IpAddr::V6([0x20, 0x01, 0x0d, 0xb8, 0, 0, 0, 0, 0, 0, 0, 0, 0, 0, 0, 1]);
    assert_eq!(IpKey::from_ip(v4).into_ip(), v4);
    assert_eq!(IpKey::from_ip(v6).into_ip(), v6);
    assert!(IpKey::from_ip(v4) < IpKey::from_ip(v6));
    assert!(IpKey::from_ip(v4).comes_before(IpKey::from_ip(v6)));
}

fn doc(last: u8) -> IpKey {
    IpKey::from_ip(IpAddr::V6([
        0x20, 0x01, 0x0d, 0xb8, 0, 0, 0, 0, 0, 0, 0, 0, 0, 0, 0, last,
    ]))
}

#[test]
fn sort_merge_diff_matches_set_diff() {
    let target = vec![key(1), key(2), doc(1)];
    let current = vec![key(2), key(3), doc(2)];

    let mut target_sorted = target.clone();
    target_sorted.sort_unstable();
    let mut current_sorted = current.clone();
    current_sorted.sort_unstable();

    let mut i = 0usize;
    let mut j = 0usize;
    let mut all_ops = Vec::new();
    loop {
        let mut chunk = Vec::new();
        fill_resync_chunk(&target_sorted, &current_sorted, &mut i, &mut j, 2, &mut chunk);
        if chunk.is_empty() {
            break;
        }
        all_ops.extend(chunk);
    }

    let mut adds = FxHashSet::default();
    let mut dels = FxHashSet::default();
    for op in all_ops {
        match op.action {
            RuleAction::Add => {
                adds.insert(IpKey::from_ip(op.addr));
            }
            RuleAction::Delete => {
                dels.insert(IpKey::from_ip(op.addr));
            }
        }
    }

    assert!(adds.contains(&key(1)));
    assert!(adds.contains(&doc(1)));
    assert!(dels.contains(&key(3)));
    assert!(dels.contains(&doc(2)));
    assert_eq!(adds.len(), 2);
    assert_eq!(dels.len(), 2);
}

#[test]
fn changes_come_in_ascending_order() {
    let target = vec![key(1), key(4), key(5), doc(3)];
    let current = vec![key(2), key(4), key(9), doc(1)];
    let (mut i, mut j) = (0usize, 0usize);
    let mut ops = Vec::new();
    fill_resync_chunk(&target, &current, &mut i, &mut j, 10, &mut ops);
    let keys: Vec<IpKey> = ops.iter().map(|op| IpKey::from_ip(op.addr)).collect();
    assert_eq!(keys, vec![key(1), key(2), key(5), key(9), doc(1), doc(3)]);
}

#[test]
fn a_job_waits_for_its_own_batch_alone() {
    let mut d = Daemon::new(options(8), ByteOrder::Little);
    d.resync_scratch.tracked_keys = vec![key(1)];
    let job = MaintenanceJob::CleanupTracked {
        offset: 1,
        batch_id: 7,
        summary: CleanupSummary::default(),
        waiting_batch_id: Some(7),
    };
    let result = ApplyResult { input: 1, noop: 0, added: 0, deleted: 1, failed: 0, duration: 0 };
    let done = CompletedBatch { batch_id: 6, owner: InflightOwner::Maintenance, result };
    let mut state = EventLoopState::new();
    state.maintenance = job;
    state.completed_batch = Some(done);
    let mut budget = MAINTENANCE_OP_BUDGET;
    let step = d.maintenance_step(&mut state, &mut budget, SECOND);
    assert!(matches!(step.action, MaintenanceAction::Yield));
    assert!(step.report.is_none());
    assert_eq!(state.completed_batch, Some(done));
    assert_eq!(state.maintenance, job);
    assert!(!state.shutdown_cleanup_done);
    assert!(state.inflight.is_none());
    assert_eq!(budget, MAINTENANCE_OP_BUDGET);

    state.completed_batch = Some(CompletedBatch { batch_id: 7, ..done });
    let step = d.maintenance_step(&mut state, &mut budget, SECOND);
    assert!(matches!(step.action, MaintenanceAction::Again));
    assert!(state.completed_batch.is_none());
    assert!(state.shutdown_cleanup_done);
    assert_eq!(state.shutdown_cleanup.removed, 1);
}

#[test]
fn tracked_cleanup_chunk_respects_batch_boundary() {
    let tracked_keys = vec![key(1), key(2), key(3)];

    let mut offset = 0usize;
    let mut first = Vec::new();
    fill_tracked_cleanup_chunk(&tracked_keys, &mut offset, 2, &mut first);
    assert_eq!(first.len(), 2);
    assert_eq!(offset, 2);

    let mut second = Vec::new();
    fill_tracked_cleanup_chunk(&tracked_keys, &mut offset, 2, &mut second);
    assert_eq!(second.len(), 1);
    assert_eq!(offset, 3);
}

#[test]
fn blocking_cleanup_fills_batches() {
    let mut d = Daemon::new(options(8), ByteOrder::Little);
    for last in 0..100u8 {
        d.owned_ips.insert(key(last));
    }
    let targets = d.take_owned();
    assert_eq!(targets.len(), 100);
    assert!(owned(&d).is_empty());
    let mut run = CleanupRun::new(d.opts.batch_max);
    let mut sizes = Vec::new();
    for target in targets {
        if let Some(batch) = run.push(target) {
            sizes.push(batch.ops.len());
        }
    }
    if let Some(batch) = run.finish() {
        assert_eq!(batch.batch_id, 2);
        sizes.push(batch.ops.len());
        let outbound = d.start_blocking_batch(batch).expect("batch");
        assert_eq!(outbound.messages.len(), 36);
        let mut inflight = into_inflight(outbound, SECOND);
        assert_eq!(ack_wait(&inflight), AckWait::Wait);
        assert!(after_ack_wait(&inflight, true).is_ok());
        match after_ack_wait(&inflight, false) {
            Err(e) => assert!(e.to_text().contains("pending=36")),
            Ok(()) => panic!("must fail"),
        }
        let first = inflight.first_seq;
        let acks: Vec<Vec<u8>> = (0..36).map(|i| ack(first + i, 0)).collect();
        d.absorb_batch_acks(&mut inflight, &ring_of(&acks), 36).expect("acks");
        assert_eq!(ack_wait(&inflight), AckWait::Settled);
    }
    assert_eq!(sizes, vec![64, 36]);
    assert_eq!(cleanup_families(false), vec![AF_INET]);
    assert_eq!(cleanup_families(true), vec![AF_INET, AF_INET6]);
}

#[test]
fn a_whole_cleanup_counts_every_deletion() {
    let mut d = Daemon::new(options(8), ByteOrder::Little);
    for last in 0..100u8 {
        d.owned_ips.insert(key(last));
    }
    let targets = d.take_owned();
    let mut run = CleanupRun::new(d.opts.batch_max);
    let mut accepted = 0u128;
    let mut batches = Vec::new();
    for target in targets {
        batches.extend(run.push(target));
    }
    batches.extend(run.finish());
    assert_eq!(batches.len(), 2);
    for batch in batches {
        let n = batch.ops.len();
        let outbound = d.start_blocking_batch(batch).expect("batch");
        let mut inflight = into_inflight(outbound, SECOND);
        let first = inflight.first_seq;
        let mut acks = Vec::new();
        for i in 0..n as u32 {
            // Every tenth rule is gone already, and every tenth deletion is refused.
            let errno = match i % 10 {
                3 => ENOENT,
                7 => 1,
                _ => {
                    accepted += 1;
                    0
                }
            };
            acks.push(ack(first + i, errno));
        }
        d.absorb_batch_acks(&mut inflight, &ring_of(&acks), n).expect("acks");
        let finished = d.finish_batch(inflight, 2 * SECOND);
        run.absorb(finished.result);
        assert!(owned(&d).is_empty());
    }
    assert_eq!(run.summary.removed, accepted);
    assert_eq!(accepted, 80);
    assert_eq!(run.summary.noop, 11);
    assert_eq!(run.summary.failed, 9);
}

#[test]
fn places_past_the_end_are_like_the_end() {
    let target = vec![key(1)];
    let current = vec![key(2), key(3)];
    let (mut i, mut j) = (9usize, 1usize);
    let mut ops = Vec::new();
    fill_resync_chunk(&target, &current, &mut i, &mut j, 10, &mut ops);
    assert_eq!(ops.len(), 1);
    assert_eq!(IpKey::from_ip(ops[0].addr), key(3));
    assert!(matches!(ops[0].action, RuleAction::Delete));
    assert_eq!((i, j), (9, 2));
    let mut none = Vec::new();
    let (mut i, mut j) = (usize::MAX, 7usize);
    fill_resync_chunk(&target, &current, &mut i, &mut j, 10, &mut none);
    assert!(none.is_empty());
    assert_eq!((i, j), (usize::MAX, 7));
}

#[test]
fn results_of_the_run_are_combined() {
    let failed = || AppError::message("loop");
    assert!(matches!(run_result(Ok(3), Ok(())), Ok(_)));
    match run_result(Err(AppError::message("cleanup")), Err(failed())) {
        Err(e) => assert_eq!(e.to_text(), "cleanup"),
        Ok(_) => panic!("must fail"),
    }
    match run_result(Ok(1), Err(failed())) {
        Err(e) => assert_eq!(e.to_text(), "loop"),
        Ok(_) => panic!("must fail"),
    }
}

#[test]
fn deadlines_and_waits_are_computed() {
    let mut deadline = None;
    min_deadline(&mut deadline, 5);
    min_deadline(&mut deadline, 9);
    min_deadline(&mut deadline, 3);
    assert_eq!(deadline, Some(3));
    assert_eq!(timer_spec(10, None), TimerSpec { sec: 0, nsec: 0 });
    assert_eq!(timer_spec(10, Some(3)), TimerSpec { sec: 0, nsec: 1 });
    assert_eq!(
        timer_spec(10, Some(2_500_000_010)),
        TimerSpec { sec: 2, nsec: 500_000_000 }
    );
    assert_eq!(wait_outcome(-1, Some(4)), WaitOutcome::Retry);
    assert_eq!(wait_outcome(-1, Some(9)), WaitOutcome::Failed);
    assert_eq!(wait_outcome(2, None), WaitOutcome::Events(2));
    assert_eq!(event_source(EPOLL_TAG_TIMER), EventSource::Timer);
    assert_eq!(event_source(77), EventSource::Unknown);
    assert_eq!(drain_step(128, 128, None), DrainStep::Record);
    assert_eq!(drain_step(-1, 128, Some(11)), DrainStep::Done);
    assert_eq!(drain_step(-1, 128, Some(4)), DrainStep::Retry);
    assert_eq!(drain_step(-1, 128, Some(5)), DrainStep::Failed);
    assert_eq!(rule_action_name(RuleAction::Add), "add");
    assert_eq!(rule_action_name(RuleAction::Delete), "delete");
}

#[test]
fn runs_are_logged_with_all_their_fields() {
    let opts = options(8);
    assert!(schema_violation(LogEventSchema::DaemonStarted, &started_fields(&opts)).is_none());
    let state = EventLoopState::new();
    let fields = stopped_fields(2, 3, state.shutdown_cleanup);
    assert!(schema_violation(LogEventSchema::DaemonStopped, &fields).is_none());
    assert_eq!(
        schema_violation(LogEventSchema::DaemonStopped, &fields[1..]),
        Some("count_cleanup_removed".to_string())
    );
}
