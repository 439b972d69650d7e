//! Route events, signals, and the order of work.
use crate::bytes::ByteOrder;
use crate::daemon::batch_apply::{
    after_millis, deadline_after, flush_due, flushed, handle_ack_timeout, queue_compensate_resync,
    should_flush_pending, timed_out, timed_out_as, Flush, PendingStart, TimedOutBatch,
};
use crate::daemon::state::{
    next_budget, Daemon, EventLoopState, MaintenanceJob, State, EPOLL_TAG_ROUTE, EPOLL_TAG_RULE,
    EPOLL_TAG_SIGNAL, EPOLL_TAG_TIMER, ROUTE_RING_MAX_SLOTS, ROUTE_RING_MIN_SLOTS,
};
use crate::ip_key::IpKey;
use crate::netlink::addr::{addr_event, parse_addr_event, AddrEvent, AddrEventView, IgnoreFilters};
use crate::netlink::codec::{item_view, Item};
use crate::netlink::rule::RuleAction;
use crate::netlink::socket::{collect_messages, item_views, packet_items, resized, MmsgRxRing};
use crate::sys::{ArchNumbers, EINTR, RTM_DELADDR, RTM_NEWADDR};
use vstd::prelude::*;

verus! {

// ---------------------------------------------------------------------------
// Events
// ---------------------------------------------------------------------------

/// What a wait for events brought.
#[derive(Debug, Clone, Copy, PartialEq, Eq, Structural)]
pub enum WaitOutcome {
    /// That many events.
    Events(usize),
    /// A signal interrupted the wait: wait again.
    Retry,
    /// The wait failed.
    Failed,
}

/// Reads the return value of `epoll_wait`.
pub fn wait_outcome(n: i32, errno: Option<i32>) -> (r: WaitOutcome)
    ensures
        r == (if n >= 0 {
            WaitOutcome::Events(n as usize)
        } else if errno == Some(EINTR) {
            WaitOutcome::Retry
        } else {
            WaitOutcome::Failed
        }),
        r matches WaitOutcome::Events(k) ==> k == n,
        r == WaitOutcome::Retry <==> n < 0 && errno == Some(4i32),
        r == WaitOutcome::Failed <==> n < 0 && errno != Some(4i32),
{
    if n >= 0 {
        return WaitOutcome::Events(n as usize);
    }
    match errno {
        Some(code) => if code == EINTR {
            WaitOutcome::Retry
        } else {
            WaitOutcome::Failed
        },
        None => WaitOutcome::Failed,
    }
}

/// Where an event comes from.
#[derive(Debug, Clone, Copy, PartialEq, Eq, Structural)]
pub enum EventSource {
    Route,
    Rule,
    Signal,
    Timer,
    Unknown,
}

/// Where an event with a tag comes from.
pub fn event_source(tag: u64) -> (r: EventSource)
    ensures
        r == (if tag == EPOLL_TAG_ROUTE {
            EventSource::Route
        } else if tag == EPOLL_TAG_RULE {
            EventSource::Rule
        } else if tag == EPOLL_TAG_SIGNAL {
            EventSource::Signal
        } else if tag == EPOLL_TAG_TIMER {
            EventSource::Timer
        } else {
            EventSource::Unknown
        }),
        r == EventSource::Route <==> tag == 1,
        r == EventSource::Signal <==> tag == 2,
        r == EventSource::Timer <==> tag == 3,
        r == EventSource::Rule <==> tag == 4,
{
    if tag == EPOLL_TAG_ROUTE {
        EventSource::Route
    } else if tag == EPOLL_TAG_RULE {
        EventSource::Rule
    } else if tag == EPOLL_TAG_SIGNAL {
        EventSource::Signal
    } else if tag == EPOLL_TAG_TIMER {
        EventSource::Timer
    } else {
        EventSource::Unknown
    }
}

/// Whether the daemon has nothing left to do: it was asked to stop, no change is pending or
/// under way, and its rules are cleaned up.
pub open spec fn is_finished(s: State) -> bool {
    &&& s.shutdown_requested
    &&& s.pending.dom() == Set::<IpKey>::empty()
    &&& s.inflight is None
    &&& s.maintenance == MaintenanceJob::Idle
    &&& s.shutdown_cleanup_done
}

/// Whether the daemon has nothing left to do.
pub fn loop_finished(state: &EventLoopState) -> (r: bool)
    ensures
        r == is_finished(state@),
{
    state.shutdown_requested && state.pending.is_empty() && state.inflight.is_none()
        && state.maintenance == MaintenanceJob::Idle && state.shutdown_cleanup_done
}

/// What a signal asks for.
#[derive(Debug, Clone, Copy, PartialEq, Eq, Structural)]
pub enum SignalAction {
    Resync,
    Stop,
}

/// Takes note of a signal: `SIGUSR1` asks for a resynchronisation, any other to stop.
pub fn handle_signal(state: &mut EventLoopState, signo: u32, arch: ArchNumbers) -> (r:
    SignalAction)
    ensures
        r == (if signo == arch.sigusr1 {
            SignalAction::Resync
        } else {
            SignalAction::Stop
        }),
        final(state)@ == (if signo == arch.sigusr1 {
            State { resync_requested: true, ..old(state)@ }
        } else {
            State { shutdown_requested: true, ..old(state)@ }
        }),
        final(state).inflight == old(state).inflight,
        r == SignalAction::Resync <==> signo == arch.sigusr1,
        r == SignalAction::Resync ==> final(state)@.resync_requested
            && final(state)@.shutdown_requested == old(state)@.shutdown_requested,
        r == SignalAction::Stop ==> final(state)@.shutdown_requested
            && final(state)@.resync_requested == old(state)@.resync_requested,
        final(state)@.pending == old(state)@.pending,
{
    if signo == arch.sigusr1 {
        state.resync_requested = true;
        SignalAction::Resync
    } else {
        state.shutdown_requested = true;
        SignalAction::Stop
    }
}

// ---------------------------------------------------------------------------
// Route events
// ---------------------------------------------------------------------------

/// How far a round of reading route events has come.
#[derive(Debug, Clone, Copy, PartialEq, Eq, Structural)]
pub struct RouteDrain {
    pub packets_left: usize,
    pub processed_packets: usize,
    pub budget_hit: bool,
    pub saw_ring_full: bool,
    pub parse_failed: u64,
    pub touched_pending: bool,
}

impl RouteDrain {
    /// The counts together fit a machine word.
    pub open spec fn wf(self) -> bool {
        self.packets_left + self.processed_packets <= usize::MAX
    }
}

/// A round at its start.
pub open spec fn fresh_drain(budget: usize) -> RouteDrain {
    RouteDrain {
        packets_left: budget,
        processed_packets: 0,
        budget_hit: false,
        saw_ring_full: false,
        parse_failed: 0,
        touched_pending: false,
    }
}

/// Starts a round with the budget in force.
pub fn start_route_drain(state: &EventLoopState) -> (r: RouteDrain)
    ensures
        r == fresh_drain(state@.route_budget.current),
        r.wf(),
{
    RouteDrain {
        packets_left: state.route_budget.current,
        processed_packets: 0,
        budget_hit: false,
        saw_ring_full: false,
        parse_failed: 0,
        touched_pending: false,
    }
}

/// An announcement, with what the log says of its message.
#[derive(Debug, Clone, Copy)]
pub struct RouteEvent {
    pub nlmsg_type: u16,
    pub nlmsg_seq: u32,
    pub event: AddrEvent,
}

/// A `RouteEvent` with its address as a key.
pub struct RouteEventView {
    pub nlmsg_type: u16,
    pub nlmsg_seq: u32,
    pub event: AddrEventView,
}

impl View for RouteEvent {
    type V = RouteEventView;

    open spec fn view(&self) -> RouteEventView {
        RouteEventView {
            nlmsg_type: self.nlmsg_type,
            nlmsg_seq: self.nlmsg_seq,
            event: self.event@,
        }
    }
}

/// Whether an item is an announcement of an address.
pub open spec fn is_announcement(item: Item) -> bool {
    item matches Item::Message(m) && (m.header.nlmsg_type == RTM_NEWADDR || m.header.nlmsg_type
        == RTM_DELADDR)
}

/// Whether an item could not be read.
pub open spec fn is_lost(
    order: ByteOrder,
    item: Item,
    ipv6_enabled: bool,
    filters: &IgnoreFilters,
) -> bool {
    match item {
        Item::Error(_) => true,
        Item::Message(m) => is_announcement(item) && addr_event(
            order,
            m,
            ipv6_enabled,
            filters,
        ) is Err,
    }
}

/// What an item announces.
pub open spec fn announced(
    order: ByteOrder,
    item: Item,
    ipv6_enabled: bool,
    filters: &IgnoreFilters,
) -> Option<RouteEventView> {
    match item {
        Item::Error(_) => None,
        Item::Message(m) => if is_announcement(item) {
            match addr_event(order, m, ipv6_enabled, filters) {
                Ok(Some(event)) => Some(
                    RouteEventView {
                        nlmsg_type: m.header.nlmsg_type,
                        nlmsg_seq: m.header.nlmsg_seq,
                        event,
                    },
                ),
                _ => None,
            }
        } else {
            None
        },
    }
}

/// What the items announce, in order.
pub open spec fn announcements(
    order: ByteOrder,
    received: Seq<Item>,
    ipv6_enabled: bool,
    filters: &IgnoreFilters,
) -> Seq<RouteEventView>
    decreases received.len(),
{
    if received.len() == 0 {
        Seq::empty()
    } else {
        let before = announcements(order, received.drop_last(), ipv6_enabled, filters);
        match announced(order, received.last(), ipv6_enabled, filters) {
            Some(e) => before.push(e),
            None => before,
        }
    }
}

/// How many items could not be read.
pub open spec fn lost(
    order: ByteOrder,
    received: Seq<Item>,
    ipv6_enabled: bool,
    filters: &IgnoreFilters,
) -> nat
    decreases received.len(),
{
    if received.len() == 0 {
        0
    } else {
        lost(order, received.drop_last(), ipv6_enabled, filters) + if is_lost(
            order,
            received.last(),
            ipv6_enabled,
            filters,
        ) {
            1nat
        } else {
            0
        }
    }
}

/// What is pending after the announcements: the last one for an address counts.
pub open spec fn pending_after(
    pending: Map<IpKey, RuleAction>,
    events: Seq<RouteEventView>,
) -> Map<IpKey, RuleAction>
    decreases events.len(),
{
    if events.len() == 0 {
        pending
    } else {
        pending_after(pending, events.drop_last()).insert(
            events.last().event.key,
            events.last().event.action,
        )
    }
}

/// For every address, what is pending is what was announced last, or what was pending before
/// where nothing was announced.
pub proof fn last_announcement_counts(
    pending: Map<IpKey, RuleAction>,
    events: Seq<RouteEventView>,
    i: int,
)
    requires
        0 <= i < events.len(),
        forall|j: int| i < j < events.len() ==> events[j].event.key != events[i].event.key,
    ensures
        pending_after(pending, events).contains_key(events[i].event.key),
        pending_after(pending, events)[events[i].event.key] == events[i].event.action,
    decreases events.len(),
{
    if i < events.len() - 1 {
        let init = events.drop_last();
        assert(forall|j: int| i < j < init.len() ==> init[j] == events[j]);
        last_announcement_counts(pending, init, i);
    }
}

/// The lesser of a sum and the greatest number.
pub open spec fn saturated_sum(a: u64, b: nat) -> u64 {
    if a + b <= u64::MAX {
        (a + b) as u64
    } else {
        u64::MAX
    }
}

/// How many of the packets that were received are within the budget.
pub open spec fn within_budget(d: RouteDrain, count: usize) -> usize {
    if count <= d.packets_left {
        count
    } else {
        d.packets_left
    }
}

/// The round after `count` packets were received into a ring with `slots` slots.
pub open spec fn drain_after(
    order: ByteOrder,
    d: RouteDrain,
    packets: Seq<Seq<u8>>,
    count: usize,
    ipv6_enabled: bool,
    filters: &IgnoreFilters,
) -> RouteDrain {
    let n = within_budget(d, count);
    let received = packet_items(order, packets.subrange(0, n as int));
    RouteDrain {
        packets_left: (d.packets_left - n) as usize,
        processed_packets: (d.processed_packets + n) as usize,
        budget_hit: d.budget_hit || count > d.packets_left,
        saw_ring_full: d.saw_ring_full || count == packets.len(),
        parse_failed: saturated_sum(
            d.parse_failed,
            lost(order, received, ipv6_enabled, filters),
        ),
        touched_pending: d.touched_pending || announcements(
            order,
            received,
            ipv6_enabled,
            filters,
        ).len() > 0,
    }
}

/// The packets of the ring after a receive: a ring that was filled is doubled, up to its limit.
pub open spec fn ring_after(packets: Seq<Seq<u8>>, count: usize) -> Seq<Seq<u8>> {
    if count == packets.len() && packets.len() < ROUTE_RING_MAX_SLOTS {
        resized(
            packets,
            if packets.len() * 2 < ROUTE_RING_MAX_SLOTS {
                packets.len() * 2
            } else {
                ROUTE_RING_MAX_SLOTS as nat
            },
        )
    } else {
        packets
    }
}

/// The views of a list of announcements.
pub open spec fn event_views(s: Seq<RouteEvent>) -> Seq<RouteEventView> {
    Seq::new(s.len(), |i: int| s[i]@)
}

/// The state after a round.
pub open spec fn drain_finished(
    s: State,
    d: RouteDrain,
    slots: nat,
    debounce_ms: u64,
    debounce_max_ms: u64,
    now: u64,
) -> State {
    State {
        route_budget: next_budget(
            s.route_budget,
            d.processed_packets,
            d.budget_hit || d.saw_ring_full,
        ),
        quiet_deadline: if d.touched_pending {
            Some(after_millis(now, debounce_ms))
        } else {
            s.quiet_deadline
        },
        max_deadline: if d.touched_pending && s.max_deadline is None {
            Some(after_millis(now, debounce_max_ms))
        } else {
            s.max_deadline
        },
        route_ring_calm_streak: streak_after(
            s.route_ring_calm_streak,
            d.processed_packets,
            slots,
        ),
        dropped_count: saturated_sum(s.dropped_count, d.parse_failed as nat),
        resync_requested: s.resync_requested || d.parse_failed > 0,
        resync_compensate_pending: s.resync_compensate_pending || d.parse_failed > 0,
        ..s
    }
}

/// Whether a round leaves the ring almost unused.
pub open spec fn calm_round(processed: usize, slots: nat) -> bool {
    processed <= slots / 4 || processed <= 1
}

/// The number of calm rounds in a row, from zero again where the ring shrinks.
pub open spec fn streak_after(streak: u8, processed: usize, slots: nat) -> u8 {
    if !calm_round(processed, slots) || (streak + 1 >= 12 && slots > ROUTE_RING_MIN_SLOTS) {
        0
    } else if streak < u8::MAX {
        (streak + 1) as u8
    } else {
        u8::MAX
    }
}

/// The number of slots after a round: halved, down to its limit, after twelve calm rounds in a
/// row.
pub open spec fn slots_after(streak: u8, processed: usize, slots: nat) -> nat {
    if calm_round(processed, slots) && streak + 1 >= 12 && slots > ROUTE_RING_MIN_SLOTS {
        if slots / 2 > ROUTE_RING_MIN_SLOTS {
            slots / 2
        } else {
            ROUTE_RING_MIN_SLOTS as nat
        }
    } else {
        slots
    }
}

/// Counts calm rounds, and shrinks the ring after a row of them.
fn settle_ring(streak: u8, ring: &mut MmsgRxRing, processed: usize) -> (r: u8)
    requires
        old(ring).wf(),
    ensures
        final(ring).wf(),
        final(ring).buf_size == old(ring).buf_size,
        final(ring)@ == resized(old(ring)@, slots_after(streak, processed, old(ring)@.len())),
        r == streak_after(streak, processed, old(ring)@.len()),
{
    let ghost packets = ring@;
    let slots: usize = ring.slots();
    let low_threshold: usize = if slots / 4 > 1 {
        slots / 4
    } else {
        1
    };
    let mut next: u8 = 0;
    if processed <= low_threshold {
        next = streak.saturating_add(1);
        if next >= 12 && slots > ROUTE_RING_MIN_SLOTS {
            let target: usize = if slots / 2 > ROUTE_RING_MIN_SLOTS {
                slots / 2
            } else {
                ROUTE_RING_MIN_SLOTS
            };
            ring.shrink_slots(target);
            next = 0;
        }
    }
    assert(ring@ =~= resized(packets, slots_after(streak, processed, packets.len())));
    next
}

/// What a round is to be logged with.
#[derive(Debug, Clone, Copy, PartialEq, Eq, Structural)]
pub struct RouteReport {
    /// How many messages could not be read in this round.
    pub parse_failed: u64,
    /// Whether a resynchronisation was asked for that had not been asked for before.
    pub compensate: bool,
}

impl Daemon {
    /// Takes the announcements in the first `n` packets over into the pending changes, and
    /// counts the messages that cannot be read on top of `parse_failed`.
    fn take_announcements(
        &self,
        state: &mut EventLoopState,
        ring: &MmsgRxRing,
        n: usize,
        parse_failed: u64,
    ) -> (r: (Vec<RouteEvent>, u64))
        requires
            ring.wf(),
            n <= ring@.len(),
        ensures
            ({
                let received = packet_items(self.order, ring@.subrange(0, n as int));
                &&& event_views(r.0@) == announcements(
                    self.order,
                    received,
                    self.opts.ipv6,
                    &self.filters,
                )
                &&& r.1 == saturated_sum(
                    parse_failed,
                    lost(self.order, received, self.opts.ipv6, &self.filters),
                )
            }),
            final(state)@ == (State {
                pending: pending_after(old(state)@.pending, event_views(r.0@)),
                ..old(state)@
            }),
            final(state).inflight == old(state).inflight,
    {
        let received = collect_messages(self.order, ring, n);
        let ghost all = item_views(received@);
        let ghost before = state@;
        let mut events: Vec<RouteEvent> = Vec::new();
        let mut failed: u64 = parse_failed;
        proof {
            assert(all.subrange(0, 0) =~= Seq::<Item>::empty());
            assert(event_views(events@) =~= Seq::<RouteEventView>::empty());
        }
        for i in 0..received.len()
            invariant
                all == item_views(received@),
                before == old(state)@,
                state.inflight == old(state).inflight,
                failed == saturated_sum(
                    parse_failed,
                    lost(
                        self.order,
                        all.subrange(0, i as int),
                        self.opts.ipv6,
                        &self.filters,
                    ),
                ),
                event_views(events@) == announcements(
                    self.order,
                    all.subrange(0, i as int),
                    self.opts.ipv6,
                    &self.filters,
                ),
                state@ == (State {
                    pending: pending_after(before.pending, event_views(events@)),
                    ..before
                }),
        {
            let ghost had = event_views(events@);
            proof {
                let upto = all.subrange(0, i + 1);
                assert(upto.drop_last() =~= all.subrange(0, i as int));
                assert(upto.last() == item_view(received@[i as int]));
            }
            match &received[i] {
                Err(_) => {
                    failed = failed.saturating_add(1);
                },
                Ok(msg) => {
                    let typ: u16 = msg.header.nlmsg_type;
                    if typ == RTM_NEWADDR || typ == RTM_DELADDR {
                        match parse_addr_event(self.order, *msg, self.opts.ipv6, &self.filters) {
                            Ok(Some(event)) => {
                                state.pending.insert(
                                    IpKey::from_ip(event.op.addr),
                                    event.op.action,
                                );
                                let e = RouteEvent {
                                    nlmsg_type: typ,
                                    nlmsg_seq: msg.header.nlmsg_seq,
                                    event,
                                };
                                events.push(e);
                                proof {
                                    assert(event_views(events@) =~= had.push(e@));
                                    assert(had.push(e@).drop_last() =~= had);
                                }
                            },
                            Ok(None) => {},
                            Err(_) => {
                                failed = failed.saturating_add(1);
                            },
                        }
                    }
                },
            }
        }
        assert(all.subrange(0, all.len() as int) =~= all);
        (events, failed)
    }

    /// Takes packets that were received into a round. Packets beyond the budget are dropped.
    pub fn handle_route_packets(
        &self,
        state: &mut EventLoopState,
        ring: &mut MmsgRxRing,
        count: usize,
        drain: &mut RouteDrain,
    ) -> (r: Vec<RouteEvent>)
        requires
            old(ring).wf(),
            count <= old(ring)@.len(),
            ROUTE_RING_MAX_SLOTS * old(ring).buf_size <= usize::MAX,
            old(drain).wf(),
        ensures
            final(ring).wf(),
            final(ring).buf_size == old(ring).buf_size,
            final(ring)@ == ring_after(old(ring)@, count),
            final(drain).wf(),
            *final(drain) == drain_after(
                self.order,
                *old(drain),
                old(ring)@,
                count,
                self.opts.ipv6,
                &self.filters,
            ),
            event_views(r@) == announcements(
                self.order,
                packet_items(
                    self.order,
                    old(ring)@.subrange(0, within_budget(*old(drain), count) as int),
                ),
                self.opts.ipv6,
                &self.filters,
            ),
            final(state)@ == (State {
                pending: pending_after(old(state)@.pending, event_views(r@)),
                ..old(state)@
            }),
            final(state).inflight == old(state).inflight,
    {
        let ghost packets = ring@;
        let slots: usize = ring.slots();
        if count == slots {
            drain.saw_ring_full = true;
            if slots < ROUTE_RING_MAX_SLOTS {
                let next_slots: usize = if slots * 2 < ROUTE_RING_MAX_SLOTS {
                    slots * 2
                } else {
                    ROUTE_RING_MAX_SLOTS
                };
                proof {
                    let size = ring.buf_size as int;
                    assert(next_slots * size <= ROUTE_RING_MAX_SLOTS * size) by (nonlinear_arith)
                        requires
                            next_slots <= ROUTE_RING_MAX_SLOTS,
                            size >= 0,
                    ;
                }
                ring.ensure_slots(next_slots);
            }
        }
        assert(ring@ =~= ring_after(packets, count));
        let n: usize = if count <= drain.packets_left {
            count
        } else {
            drain.budget_hit = true;
            drain.packets_left
        };
        drain.packets_left = drain.packets_left - n;
        drain.processed_packets = drain.processed_packets + n;
        assert(ring@.subrange(0, n as int) =~= packets.subrange(0, n as int));
        let (events, failed) = self.take_announcements(state, ring, n, drain.parse_failed);
        drain.parse_failed = failed;
        if events.len() > 0 {
            drain.touched_pending = true;
        }
        assert(event_views(events@).len() == events@.len());
        events
    }

    /// Ends a round: sets deadlines, the budget and the size of the ring, and asks for a
    /// resynchronisation where messages could not be read.
    pub fn finish_route_drain(
        &self,
        state: &mut EventLoopState,
        ring: &mut MmsgRxRing,
        drain: RouteDrain,
        now: u64,
    ) -> (r: RouteReport)
        requires
            old(ring).wf(),
        ensures
            final(ring).wf(),
            final(ring).buf_size == old(ring).buf_size,
            final(ring)@ == resized(
                old(ring)@,
                slots_after(
                    old(state)@.route_ring_calm_streak,
                    drain.processed_packets,
                    old(ring)@.len(),
                ),
            ),
            final(state)@ == drain_finished(
                old(state)@,
                drain,
                old(ring)@.len(),
                self.opts.debounce_ms,
                self.opts.debounce_max_ms,
                now,
            ),
            final(state).inflight == old(state).inflight,
            r == (RouteReport {
                parse_failed: drain.parse_failed,
                compensate: drain.parse_failed > 0 && !old(state)@.resync_compensate_pending,
            }),
    {
        state.route_budget.update(
            drain.processed_packets,
            drain.budget_hit || drain.saw_ring_full,
        );
        if drain.touched_pending {
            state.quiet_deadline = Some(deadline_after(now, self.opts.debounce_ms));
            if state.max_deadline.is_none() {
                state.max_deadline = Some(deadline_after(now, self.opts.debounce_max_ms));
            }
        }
        state.route_ring_calm_streak = settle_ring(
            state.route_ring_calm_streak,
            ring,
            drain.processed_packets,
        );
        let mut compensate = false;
        if drain.parse_failed > 0 {
            state.dropped_count = state.dropped_count.saturating_add(drain.parse_failed);
            compensate = queue_compensate_resync(state);
        }
        RouteReport { parse_failed: drain.parse_failed, compensate }
    }
}

/// A ring within its limits stays within them.
pub proof fn ring_stays_in_limits(
    streak: u8,
    processed: usize,
    packets: Seq<Seq<u8>>,
    count: usize,
)
    requires
        ROUTE_RING_MIN_SLOTS <= packets.len() <= ROUTE_RING_MAX_SLOTS,
    ensures
        ROUTE_RING_MIN_SLOTS <= ring_after(packets, count).len() <= ROUTE_RING_MAX_SLOTS,
        ROUTE_RING_MIN_SLOTS <= slots_after(streak, processed, packets.len()) <= ROUTE_RING_MAX_SLOTS,
{
}

/// A message that cannot be read is never passed over: a resynchronisation is asked for.
pub proof fn lost_message_asks_for_resync(
    s: State,
    d: RouteDrain,
    slots: nat,
    debounce_ms: u64,
    debounce_max_ms: u64,
    now: u64,
)
    requires
        d.parse_failed > 0,
    ensures
        drain_finished(s, d, slots, debounce_ms, debounce_max_ms, now).resync_requested,
{
}

// ---------------------------------------------------------------------------
// The order of work
// ---------------------------------------------------------------------------

/// The state after overdue acknowledgements were given up.
pub open spec fn after_timeout(s: State, now: u64) -> State {
    if s.inflight matches Some(b) && now >= b.ack_deadline {
        timed_out(s, now)
    } else {
        s
    }
}

/// What is to be done before maintenance.
pub struct ReactorStep {
    pub timed_out: Option<TimedOutBatch>,
    pub flush: PendingStart,
}

impl Daemon {
    /// Gives up overdue acknowledgements and flushes pending changes that are due. On the way
    /// out of the daemon they are always due. Maintenance has its turn where no batch is under
    /// way afterwards.
    pub fn drive_reactor(&mut self, state: &mut EventLoopState, now: u64) -> (r: ReactorStep)
        requires
            old(state).inflight matches Some(b) ==> b.wf(),
        ensures
            final(self).same_setup(old(self)),
            final(state).inflight matches Some(b) ==> b.wf(),
            match (r.timed_out, old(state)@.inflight) {
                (Some(t), Some(b)) => now >= b.ack_deadline && timed_out_as(
                    t,
                    b,
                    old(state)@.resync_compensate_pending,
                ),
                (None, Some(b)) => now < b.ack_deadline,
                (None, None) => true,
                (Some(_), None) => false,
            },
            ({
                let s = after_timeout(old(state)@, now);
                if s.inflight is None && flush_due(s, now, s.shutdown_requested) {
                    exists|keys: Seq<IpKey>|
                        keys.no_duplicates() && keys.to_set() == s.pending.dom() && (
                        final(self)@,
                        final(state)@,
                        r.flush@,
                    ) == #[trigger] flushed(
                            old(self)@,
                            s,
                            keys,
                            old(self).opts.batch_max,
                            old(self).opts.debounce_ms,
                            old(self).opts.debounce_max_ms,
                            now,
                        )
                } else {
                    final(self)@ == old(self)@ && final(state)@ == s && r.flush@ == Flush::Nothing
                }
            }),
            r.flush matches PendingStart::Send(batch) ==> batch.wf(
                old(self).order,
                old(self).rule_ctx,
            ),
    {
        let overdue = match &state.inflight {
            Some(inflight) => now as u128 >= inflight.ack_deadline,
            None => false,
        };
        let timed_out = if overdue {
            handle_ack_timeout(state, now)
        } else {
            None
        };
        let flush = if state.inflight.is_none() && should_flush_pending(
            state,
            now,
            state.shutdown_requested,
        ) {
            self.start_pending_batch(state, now)
        } else {
            PendingStart::Nothing
        };
        ReactorStep { timed_out, flush }
    }
}

} // verus!
