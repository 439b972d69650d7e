//! What a round of the event loop takes in, and how it adapts to the load.
use crate::bytes::ByteOrder;
use crate::daemon::batch_apply::timed_out;
use crate::daemon::event_loop::{
    after_timeout, announced, announcements, drain_after, drain_finished, fresh_drain,
    is_announcement, is_finished, is_lost, lost, pending_after, ring_after, slots_after,
    streak_after, within_budget, RouteDrain, RouteEventView,
};
use crate::daemon::lifecycle::timer_nanos;
use crate::daemon::state::{
    initial_budget, initial_state, next_budget, MaintenanceJob, RouteBudgetState, State,
};
use crate::ip_key::IpKey;
use crate::kernel::poll_timeout;
use crate::laws::batches::times_are_in_nanoseconds;
use crate::netlink::addr::{addr_event, IgnoreFilters};
use crate::netlink::codec::Item;
use crate::netlink::rule::RuleAction;
use crate::netlink::socket::{packet_items, resized};
use vstd::prelude::*;

verus! {

// ---------------------------------------------------------------------------
// Start and end
// ---------------------------------------------------------------------------

/// A daemon starts with nothing pending and nothing in flight, and with a cleanup to do.
pub proof fn daemon_starts_with_a_cleanup(k: IpKey)
    ensures
        ({
            let s = initial_state();
            &&& !s.pending.contains_key(k)
            &&& s.inflight is None && s.completed_batch is None
            &&& s.quiet_deadline is None && s.max_deadline is None
            &&& !s.shutdown_requested && !s.resync_requested && !s.resync_compensate_pending
            &&& !s.shutdown_cleanup_done
            &&& s.startup_cleanup_pending && s.startup_cleanup_retry_count == 0
                && s.startup_cleanup_retry_deadline is None && s.startup_cleanup_started_at is None
            &&& s.maintenance == MaintenanceJob::Idle
            &&& s.dropped_count == 0 && s.batch_id == 0
            &&& s.route_budget.current == 256 && s.route_budget.full_streak == 0
                && s.route_budget.low_streak == 0 && s.route_ring_calm_streak == 0
        }),
{
}

/// The daemon ends if and only if it was told to stop, no change is pending or in flight, no
/// maintenance goes on, and its own rules are removed.
pub proof fn daemon_ends_when_all_is_done(s: State, k: IpKey)
    ensures
        is_finished(s) ==> s.shutdown_requested && !s.pending.contains_key(k) && s.inflight is None
            && s.maintenance == MaintenanceJob::Idle && s.shutdown_cleanup_done,
        s.shutdown_requested && s.pending == Map::<IpKey, RuleAction>::empty() && s.inflight is None
            && s.maintenance == MaintenanceJob::Idle && s.shutdown_cleanup_done ==> is_finished(s),
{
    if is_finished(s) {
        assert(!s.pending.dom().contains(k));
    }
    assert(Map::<IpKey, RuleAction>::empty().dom() =~= Set::<IpKey>::empty());
}

/// A batch is given up once its time has come, and not before.
pub proof fn batch_is_given_up_in_time(s: State, now: u64)
    ensures
        s.inflight is None ==> after_timeout(s, now) == s,
        s.inflight matches Some(b) ==> (now < b.ack_deadline ==> after_timeout(s, now) == s) && (now
            >= b.ack_deadline ==> after_timeout(s, now) == timed_out(s, now)),
{
}

// ---------------------------------------------------------------------------
// Announcements
// ---------------------------------------------------------------------------

/// Only messages of new addresses (20) and of addresses that are gone (21) are announcements; one
/// that cannot be read is lost, as is a packet that cannot be read.
pub proof fn announcements_are_of_addresses(
    order: ByteOrder,
    item: Item,
    ipv6_enabled: bool,
    filters: &IgnoreFilters,
)
    ensures
        match item {
            Item::Error(_) => !is_announcement(item) && is_lost(
                order,
                item,
                ipv6_enabled,
                filters,
            ) && announced(order, item, ipv6_enabled, filters) is None,
            Item::Message(m) => {
                let read = addr_event(order, m, ipv6_enabled, filters);
                let of_address = m.header.nlmsg_type == 20 || m.header.nlmsg_type == 21;
                &&& is_announcement(item) <==> of_address
                &&& is_lost(order, item, ipv6_enabled, filters) <==> of_address && read is Err
                &&& announced(order, item, ipv6_enabled, filters) is Some <==> of_address && (
                read matches Ok(Some(_)))
                &&& announced(order, item, ipv6_enabled, filters) matches Some(e) ==> e.nlmsg_type
                    == m.header.nlmsg_type && e.nlmsg_seq == m.header.nlmsg_seq && (
                read matches Ok(Some(event)) && event == e.event)
            },
        },
{
}

/// Announcements are taken in the order in which they were received, and what is lost is counted.
pub proof fn announcements_are_taken_in_order(
    order: ByteOrder,
    received: Seq<Item>,
    item: Item,
    ipv6_enabled: bool,
    filters: &IgnoreFilters,
)
    ensures
        announcements(order, Seq::empty(), ipv6_enabled, filters).len() == 0,
        lost(order, Seq::empty(), ipv6_enabled, filters) == 0,
        announcements(order, received.push(item), ipv6_enabled, filters) == (match announced(
            order,
            item,
            ipv6_enabled,
            filters,
        ) {
            Some(e) => announcements(order, received, ipv6_enabled, filters).push(e),
            None => announcements(order, received, ipv6_enabled, filters),
        }),
        lost(order, received.push(item), ipv6_enabled, filters) - lost(
            order,
            received,
            ipv6_enabled,
            filters,
        ) == (if is_lost(order, item, ipv6_enabled, filters) {
            1int
        } else {
            0
        }),
{
    assert(received.push(item).drop_last() =~= received);
    assert(received.push(item).last() == item);
}

/// What is pending for an address that nothing was announced of stays as it was.
pub proof fn other_addresses_stay_pending(
    pending: Map<IpKey, RuleAction>,
    events: Seq<RouteEventView>,
    k: IpKey,
)
    requires
        forall|i: int| 0 <= i < events.len() ==> (#[trigger] events[i]).event.key != k,
    ensures
        pending_after(pending, events).contains_key(k) == pending.contains_key(k),
        pending.contains_key(k) ==> pending_after(pending, events)[k] == pending[k],
    decreases events.len(),
{
    if events.len() > 0 {
        let fewer = events.drop_last();
        assert forall|i: int| 0 <= i < fewer.len() implies (#[trigger] fewer[i]).event.key
            != k by {
            assert(events[i].event.key != k);
        }
        assert(events[events.len() - 1].event.key != k);
        other_addresses_stay_pending(pending, fewer, k);
    }
}

// ---------------------------------------------------------------------------
// Rounds
// ---------------------------------------------------------------------------

/// A round takes no more packets than its budget: what is left and what was taken make up the
/// budget, and the budget is hit where there were more. A lost message is counted, and an
/// announcement noted.
pub proof fn round_keeps_to_its_budget(
    order: ByteOrder,
    d: RouteDrain,
    packets: Seq<Seq<u8>>,
    count: usize,
    ipv6_enabled: bool,
    filters: &IgnoreFilters,
    budget: usize,
)
    requires
        d.wf(),
        count <= packets.len(),
    ensures
        ({
            let after = drain_after(order, d, packets, count, ipv6_enabled, filters);
            let n = within_budget(d, count);
            let received = packet_items(order, packets.take(n as int));
            let failed = lost(order, received, ipv6_enabled, filters);
            &&& n <= count && n <= d.packets_left && (n == count || n == d.packets_left)
            &&& after.packets_left + n == d.packets_left
            &&& after.processed_packets == d.processed_packets + n
            &&& after.budget_hit <==> d.budget_hit || n < count
            &&& after.saw_ring_full <==> d.saw_ring_full || count == packets.len()
            &&& after.touched_pending <==> d.touched_pending || announcements(
                order,
                received,
                ipv6_enabled,
                filters,
            ).len() > 0
            &&& d.parse_failed + failed <= u64::MAX ==> after.parse_failed == d.parse_failed
                + failed
            &&& d.parse_failed + failed > u64::MAX ==> after.parse_failed == u64::MAX
        }),
        ({
            let fresh = fresh_drain(budget);
            &&& fresh.packets_left == budget && fresh.processed_packets == 0
            &&& !fresh.budget_hit && !fresh.saw_ring_full && !fresh.touched_pending
            &&& fresh.parse_failed == 0
        }),
{
    let n = within_budget(d, count);
    assert(packets.take(n as int) =~= packets.subrange(0, n as int));
}

/// A round that brought an announcement starts the quiet time anew, and the longest time only where
/// none runs; a round without one leaves both. A lost message is counted, and the rules are
/// compared with the addresses to make up for it.
pub proof fn announcements_are_waited_out(
    s: State,
    d: RouteDrain,
    slots: nat,
    debounce_ms: u64,
    debounce_max_ms: u64,
    now: u64,
)
    ensures
        ({
            let after = drain_finished(s, d, slots, debounce_ms, debounce_max_ms, now);
            &&& d.touched_pending ==> (after.quiet_deadline matches Some(q) && q - now
                == debounce_ms * 1_000_000)
            &&& d.touched_pending && s.max_deadline is None ==> (after.max_deadline matches Some(m)
                && m - now == debounce_max_ms * 1_000_000)
            &&& d.touched_pending && s.max_deadline is Some ==> after.max_deadline
                == s.max_deadline
            &&& !d.touched_pending ==> after.quiet_deadline == s.quiet_deadline
                && after.max_deadline == s.max_deadline
            &&& s.dropped_count + d.parse_failed <= u64::MAX ==> after.dropped_count
                == s.dropped_count + d.parse_failed
            &&& s.dropped_count + d.parse_failed > u64::MAX ==> after.dropped_count == u64::MAX
            &&& d.parse_failed > 0 ==> after.resync_requested && after.resync_compensate_pending
            &&& d.parse_failed == 0 ==> after.resync_requested == s.resync_requested
                && after.resync_compensate_pending == s.resync_compensate_pending
            &&& after.pending == s.pending && after.inflight == s.inflight && after.maintenance
                == s.maintenance && after.shutdown_requested == s.shutdown_requested
            &&& after.route_budget == next_budget(
                s.route_budget,
                d.processed_packets,
                d.budget_hit || d.saw_ring_full,
            )
            &&& after.route_ring_calm_streak == streak_after(
                s.route_ring_calm_streak,
                d.processed_packets,
                slots,
            )
        }),
{
    times_are_in_nanoseconds(now, now, debounce_ms);
    times_are_in_nanoseconds(now, now, debounce_max_ms);
}

// ---------------------------------------------------------------------------
// Load
// ---------------------------------------------------------------------------

/// The budget doubles, up to 1024, at the second of two rounds in a row that hit it; it halves, down
/// to 64, at the eighth of eight rounds in a row that used no more than a quarter of it, or one
/// packet; and any other round leaves it and starts over.
pub proof fn budget_follows_the_load(b: RouteBudgetState, processed: usize)
    requires
        64 <= b.current <= 1024,
    ensures
        ({
            let one = next_budget(b, processed, true);
            let two = next_budget(one, processed, true);
            &&& b.full_streak == 0 ==> one.current == b.current && one.full_streak == 1
                && one.low_streak == 0
            &&& b.full_streak == 0 ==> two.full_streak == 0 && two.low_streak == 0 && two.current
                == (if b.current <= 512 {
                2 * b.current
            } else {
                1024int
            })
        }),
        ({
            let few = processed <= b.current / 4 || processed <= 1;
            let next = next_budget(b, processed, false);
            &&& next.full_streak == 0
            &&& !few ==> next.current == b.current && next.low_streak == 0
            &&& few && b.low_streak < 7 ==> next.current == b.current && next.low_streak
                == b.low_streak + 1
            &&& few && b.low_streak == 7 ==> next.low_streak == 0 && next.current == (if b.current
                >= 128 {
                b.current / 2
            } else {
                64
            })
        }),
        initial_budget().current == 256,
{
}

/// A ring that is full doubles, up to 32 slots, and keeps what it holds; any other stays as it is.
pub proof fn full_ring_grows(packets: Seq<Seq<u8>>, count: usize, i: int)
    requires
        0 < packets.len() <= 32,
        0 <= i < packets.len(),
    ensures
        ({
            let after = ring_after(packets, count);
            &&& after[i] == packets[i]
            &&& count == packets.len() && packets.len() <= 16 ==> after.len() == 2 * packets.len()
            &&& count == packets.len() && packets.len() > 16 ==> after.len() == 32
            &&& count != packets.len() ==> after == packets
        }),
{
}

/// A ring of more than 8 slots halves, down to 8, at the twelfth of twelve rounds in a row that took
/// no more than a quarter of its slots, or one; any other round starts over.
pub proof fn calm_ring_shrinks(streak: u8, processed: usize, slots: nat)
    requires
        8 <= slots <= 32,
    ensures
        ({
            let calm = processed <= slots / 4 || processed <= 1;
            let next = streak_after(streak, processed, slots);
            let after = slots_after(streak, processed, slots);
            &&& !calm ==> next == 0 && after == slots
            &&& calm && streak < 11 ==> next == streak + 1 && after == slots
            &&& calm && streak >= 11 && slots > 8 ==> next == 0 && after == (if slots >= 16 {
                slots / 2
            } else {
                8nat
            })
            &&& slots == 8 ==> after == 8
            &&& calm && slots == 8 ==> next == (if streak < 255 {
                streak + 1
            } else {
                255int
            })
        }),
{
}

/// What a ring holds is kept as far as there is room, and new slots are empty.
pub proof fn resized_ring_keeps_packets(packets: Seq<Seq<u8>>, slots: nat, i: int)
    requires
        0 <= i < slots,
    ensures
        resized(packets, slots).len() == slots,
        i < packets.len() ==> resized(packets, slots)[i] == packets[i],
        i >= packets.len() ==> resized(packets, slots)[i].len() == 0,
{
}

// ---------------------------------------------------------------------------
// Waiting
// ---------------------------------------------------------------------------

/// A timer runs until its deadline, and for the least time where that has passed.
pub proof fn timer_runs_until_the_deadline(now: u64, deadline: u128)
    ensures
        timer_nanos(now, deadline) > 0,
        deadline > now ==> now + timer_nanos(now, deadline) == deadline,
        deadline <= now ==> timer_nanos(now, deadline) == 1,
{
}

/// A wait never goes beyond its deadline, falls short of it by less than a millisecond unless it is
/// longer than a wait can be, and is not begun once the deadline has come.
pub proof fn wait_ends_by_the_deadline(now: int, deadline: int)
    ensures
        poll_timeout(now, deadline) is None <==> now >= deadline,
        poll_timeout(now, deadline) matches Some(ms) ==> {
            &&& 0 <= ms <= 0x7FFF_FFFF
            &&& now + ms * 1_000_000 <= deadline
            &&& ms < 0x7FFF_FFFF ==> deadline - now - ms * 1_000_000 < 1_000_000
        },
{
}

} // verus!
