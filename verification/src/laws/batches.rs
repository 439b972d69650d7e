//! Which changes make a batch, and what becomes of them.
use crate::daemon::batch_apply::{
    after_millis, batch_result, earlier, effective, elapsed, finished, finished_as, flush_due,
    flushed, is_deadline, is_noop, lemma_effective_len, maintenance_batch, next_id, outcome_at,
    outcome_views, outcomes, owned_after, pending_ops, sent, seq_ops_view, tally,
    tally_counts_every_change, timed_out, timed_out_as, unseen_ops, FinishedBatch, Flush, Outcome,
    TimedOutBatch,
};
use crate::daemon::convergence::changed;
use crate::daemon::state::{
    ops_view, Batch, Core, Inflight, InflightOwner, KeyOp, MaintenanceJob, State,
};
use crate::ip_key::{key_of, IpKey};
use crate::netlink::codec::seq_after;
use crate::netlink::rule::{RuleAction, Tracker};
use vstd::prelude::*;

verus! {

// ---------------------------------------------------------------------------
// Times and numbers
// ---------------------------------------------------------------------------

/// Times are in nanoseconds: a deadline is as many millions of them away as it is milliseconds,
/// and what has passed between two times is their difference, or nothing where the clock went back.
pub proof fn times_are_in_nanoseconds(now: u64, then: u64, ms: u64)
    ensures
        after_millis(now, ms) - now == ms * 1_000_000,
        now >= then ==> then + elapsed(now, then) == now,
        now < then ==> elapsed(now, then) == 0,
{
    assert(0 <= ms * 1_000_000 <= 0xFFFF_FFFF_FFFF_FFFF * 1_000_000) by (nonlinear_arith)
        requires
            0 <= ms <= 0xFFFF_FFFF_FFFF_FFFF,
    ;
}

/// Batches are numbered one after the other; zero follows the greatest number.
pub proof fn batches_are_numbered_in_turn(id: u64)
    ensures
        next_id(id) == (id + 1) % 0x1_0000_0000_0000_0000,
{
}

// ---------------------------------------------------------------------------
// Changes
// ---------------------------------------------------------------------------

/// A change is left out of a batch if and only if it would change nothing, and the others keep
/// their order.
pub proof fn only_real_changes_are_sent(ops: Seq<KeyOp>, owned: Set<IpKey>, op: KeyOp)
    ensures
        is_noop(op, owned) <==> changed(owned, op) == owned,
        effective(ops, owned) == ops.filter(|o: KeyOp| changed(owned, o) != owned),
    decreases ops.len(),
{
    let kept = |o: KeyOp| changed(owned, o) != owned;
    reveal(Seq::filter);
    lemma_noop_changes_nothing(op, owned);
    if ops.len() > 0 {
        only_real_changes_are_sent(ops.drop_last(), owned, ops.last());
        lemma_noop_changes_nothing(ops.last(), owned);
        assert(ops.drop_last().filter(kept) == effective(ops.drop_last(), owned));
    }
}

/// What would change nothing leaves the rules as they are.
proof fn lemma_noop_changes_nothing(op: KeyOp, owned: Set<IpKey>)
    ensures
        is_noop(op, owned) <==> changed(owned, op) == owned,
{
    if is_noop(op, owned) {
        assert(changed(owned, op) =~= owned);
    } else {
        assert(changed(owned, op).contains(op.key) != owned.contains(op.key));
    }
}

/// The changes that are pending for some keys, each under its key.
pub proof fn pending_changes_keep_their_keys(
    pending: Map<IpKey, RuleAction>,
    keys: Seq<IpKey>,
    i: int,
)
    requires
        0 <= i < keys.len(),
    ensures
        pending_ops(pending, keys).len() == keys.len(),
        pending_ops(pending, keys)[i].key == keys[i],
        pending_ops(pending, keys)[i].action == pending[keys[i]],
{
}

/// Changes that would change nothing are dropped and the rest is kept: a kept change is one of the
/// given ones.
proof fn lemma_effective_from(ops: Seq<KeyOp>, owned: Set<IpKey>, i: int)
    requires
        0 <= i < effective(ops, owned).len(),
    ensures
        ops.contains(effective(ops, owned)[i]),
        !is_noop(effective(ops, owned)[i], owned),
    decreases ops.len(),
{
    if ops.len() > 0 {
        let fewer = ops.drop_last();
        if i < effective(fewer, owned).len() {
            lemma_effective_from(fewer, owned, i);
            let j = fewer.index_of(effective(fewer, owned)[i]);
            assert(ops[j] == fewer[j]);
        } else {
            assert(ops[ops.len() - 1] == ops.last());
        }
    }
}

/// Whether a flush takes out pending changes: none is in flight, there are some, and a batch may
/// hold one.
pub open spec fn takes_out(s: State, keys: Seq<IpKey>, batch_max: usize) -> bool {
    s.inflight is None && keys.len() > 0 && batch_max > 0
}

/// A flush while a batch is in flight, or with nothing pending, does nothing. Any other takes out
/// as many pending changes as there are, but no more than a batch may hold; what it takes out is
/// pending no longer, what is left stays pending as it was. The time to flush again starts anew
/// where something is left, and ends where nothing is.
#[verifier::rlimit(40)]
pub proof fn flush_takes_out_a_batch(
    c: Core,
    s: State,
    keys: Seq<IpKey>,
    batch_max: usize,
    debounce_ms: u64,
    debounce_max_ms: u64,
    now: u64,
    k: IpKey,
)
    requires
        keys.no_duplicates(),
        keys.to_set() == s.pending.dom(),
    ensures
        ({
            let (core, state, flush) = flushed(
                c,
                s,
                keys,
                batch_max,
                debounce_ms,
                debounce_max_ms,
                now,
            );
            let taken = if batch_max < keys.len() {
                keys.take(batch_max as int)
            } else {
                keys
            };
            &&& !takes_out(s, keys, batch_max) ==> flush == Flush::Nothing && core == c
                && state.pending == s.pending
            &&& s.inflight is Some || keys.len() == 0 ==> state == s
            &&& takes_out(s, keys, batch_max) ==> {
                &&& state.pending.contains_key(k) <==> s.pending.contains_key(k)
                    && !taken.contains(k)
                &&& state.pending.contains_key(k) ==> state.pending[k] == s.pending[k]
                &&& state.quiet_deadline is Some <==> batch_max < keys.len()
                &&& state.max_deadline is Some <==> batch_max < keys.len()
                &&& state.quiet_deadline matches Some(d) ==> d - now == debounce_ms * 1_000_000
                &&& state.max_deadline matches Some(d) ==> d - now == debounce_max_ms * 1_000_000
                &&& match flush {
                    Flush::Nothing => false,
                    Flush::AllNoop(n) => n == taken.len() && core == c && state.batch_id
                        == s.batch_id && (forall|i: int|
                        0 <= i < taken.len() ==> (s.pending[#[trigger] taken[i]] == RuleAction::Add
                            <==> c.owned.contains(taken[i]))),
                    Flush::Send(b) => {
                        &&& b.ops.len() > 0
                        &&& b.input_count == taken.len()
                        &&& b.noop_prefilter == taken.len() - b.ops.len()
                        &&& b.owner == InflightOwner::Pending
                        &&& b.batch_id == next_id(s.batch_id) && state.batch_id == b.batch_id
                        &&& b.first_seq == (if c.next_seq == 0 {
                            1
                        } else {
                            c.next_seq
                        })
                        &&& core.next_seq == seq_after(c.next_seq, b.ops.len() as int)
                        &&& core.owned == c.owned
                        &&& forall|i: int|
                            0 <= i < b.ops.len() ==> taken.contains((#[trigger] b.ops[i]).key)
                                && b.ops[i].action == s.pending[b.ops[i].key] && (b.ops[i].action
                                == RuleAction::Add <==> !c.owned.contains(b.ops[i].key))
                    },
                }
                &&& state.inflight == s.inflight && state.maintenance == s.maintenance
                    && state.resync_requested == s.resync_requested && state.shutdown_requested
                    == s.shutdown_requested && state.completed_batch == s.completed_batch
            }
        }),
{
    times_are_in_nanoseconds(now, now, debounce_ms);
    times_are_in_nanoseconds(now, now, debounce_max_ms);
    if takes_out(s, keys, batch_max) {
        let n = if batch_max < keys.len() {
            batch_max as int
        } else {
            keys.len() as int
        };
        let taken = keys.subrange(0, n);
        assert(taken =~= if batch_max < keys.len() {
            keys.take(batch_max as int)
        } else {
            keys
        });
        let ops = pending_ops(s.pending, taken);
        assert forall|i: int| 0 <= i < effective(ops, c.owned).len() implies taken.contains(
            (#[trigger] effective(ops, c.owned)[i]).key,
        ) && effective(ops, c.owned)[i].action == s.pending[effective(ops, c.owned)[i].key]
            && !is_noop(effective(ops, c.owned)[i], c.owned) by {
            lemma_effective_from(ops, c.owned, i);
            let j = ops.index_of(effective(ops, c.owned)[i]);
            assert(taken[j] == ops[j].key);
        }
        if effective(ops, c.owned).len() == 0 {
            assert forall|i: int| 0 <= i < taken.len() implies (s.pending[#[trigger] taken[i]]
                == RuleAction::Add <==> c.owned.contains(taken[i])) by {
                lemma_nothing_effective(ops, c.owned, i);
                assert(ops[i].key == taken[i]);
            }
        }
        lemma_effective_len(ops, c.owned);
    }
}

/// Where nothing is left, every change would change nothing.
proof fn lemma_nothing_effective(ops: Seq<KeyOp>, owned: Set<IpKey>, i: int)
    requires
        effective(ops, owned).len() == 0,
        0 <= i < ops.len(),
    ensures
        is_noop(ops[i], owned),
    decreases ops.len(),
{
    if i < ops.len() - 1 {
        lemma_nothing_effective(ops.drop_last(), owned, i);
        assert(ops.drop_last()[i] == ops[i]);
    }
}

/// A batch of maintenance holds the given changes, all of them, under the given number; there is
/// none while a batch is in flight or where there is nothing to change.
pub proof fn maintenance_sends_what_it_is_given(
    c: Core,
    s: State,
    batch_id: u64,
    ops: Seq<KeyOp>,
)
    ensures
        ({
            let (core, batch) = maintenance_batch(c, s, batch_id, ops);
            &&& batch is None <==> s.inflight is Some || ops.len() == 0
            &&& batch is None ==> core == c
            &&& batch matches Some(b) ==> {
                &&& b.ops == ops && b.batch_id == batch_id
                &&& b.input_count == ops.len() && b.noop_prefilter == 0
                &&& b.owner == InflightOwner::Maintenance
                &&& b.first_seq == (if c.next_seq == 0 {
                    1
                } else {
                    c.next_seq
                })
                &&& core.next_seq == seq_after(c.next_seq, ops.len() as int)
                &&& core.owned == c.owned && core.startup == c.startup && core.leaving
                    == c.leaving && core.target == c.target && core.current == c.current
            }
        }),
{
}

/// A batch that is sent waits five seconds for the acknowledgement of each of its changes.
pub proof fn sent_batch_waits_for_every_change(b: Batch, now: u64, i: int)
    ensures
        sent(b, now).batch == b,
        sent(b, now).started_at == now,
        sent(b, now).ack_deadline - now == 5_000_000_000,
        sent(b, now).tracker.pending == b.ops.len(),
        sent(b, now).tracker.seen.len() == b.ops.len(),
        0 <= i < b.ops.len() ==> !sent(b, now).tracker.seen[i],
{
}

// ---------------------------------------------------------------------------
// Outcomes
// ---------------------------------------------------------------------------

/// A change that was not acknowledged has timed out; one that was acknowledged without an error
/// was made; a rule to add that exists (17) and one to delete that does not (2, 3) needed nothing;
/// every other error is a failure.
pub proof fn outcomes_follow_the_acknowledgements(op: KeyOp, t: Tracker, i: int)
    requires
        0 <= i < t.seen.len(),
    ensures
        outcome_at(op, t, i) == Outcome::Timeout <==> !t.seen[i],
        t.seen[i] && t.status[i] is None ==> outcome_at(op, t, i) == Outcome::Applied,
        t.seen[i] ==> (t.status[i] matches Some(e) ==> {
            &&& outcome_at(op, t, i) == Outcome::NoopEexist <==> op.action == RuleAction::Add
                && e.errno == 17
            &&& outcome_at(op, t, i) == Outcome::NoopEnoent <==> op.action == RuleAction::Delete
                && (e.errno == 2 || e.errno == 3)
            &&& outcome_at(op, t, i) != Outcome::Applied
            &&& outcome_at(op, t, i) matches Outcome::Failed(f) ==> f == e
        }),
{
}

/// One more change adds one to one count: to those added or deleted where it was made, to those
/// that needed nothing where it needed nothing, and to those failed where it failed or timed out.
pub proof fn every_change_counts_once(ops: Seq<KeyOp>, op: KeyOp, t: Tracker)
    ensures
        ({
            let before = tally(ops, t);
            let after = tally(ops.push(op), t);
            let outcome = outcome_at(op, t, ops.len() as int);
            let made = outcome == Outcome::Applied;
            &&& after.added - before.added == (if made && op.action == RuleAction::Add {
                1int
            } else {
                0
            })
            &&& after.deleted - before.deleted == (if made && op.action == RuleAction::Delete {
                1int
            } else {
                0
            })
            &&& after.noop - before.noop == (if outcome is NoopEexist || outcome is NoopEnoent {
                1int
            } else {
                0
            })
            &&& after.failed - before.failed == (if outcome is Timeout || outcome is Failed {
                1int
            } else {
                0
            })
        }),
        tally(Seq::empty(), t).added == 0,
        tally(Seq::empty(), t).deleted == 0,
        tally(Seq::empty(), t).noop == 0,
        tally(Seq::empty(), t).failed == 0,
{
    assert(ops.push(op).drop_last() =~= ops);
}

/// One more change changes the rules that are owned if and only if it was made, as it says.
pub proof fn made_changes_change_what_is_owned(
    owned: Set<IpKey>,
    ops: Seq<KeyOp>,
    op: KeyOp,
    t: Tracker,
)
    ensures
        owned_after(owned, Seq::empty(), t) == owned,
        owned_after(owned, ops.push(op), t) == (if outcome_at(op, t, ops.len() as int)
            == Outcome::Applied {
            changed(owned_after(owned, ops, t), op)
        } else {
            owned_after(owned, ops, t)
        }),
{
    assert(ops.push(op).drop_last() =~= ops);
}

/// The result of a batch accounts for every change that went into it.
pub proof fn result_accounts_for_every_change(b: Inflight, now: u64)
    requires
        b.batch.noop_prefilter >= 0,
        b.batch.input_count == b.batch.noop_prefilter + b.batch.ops.len(),
        b.batch.input_count <= usize::MAX,
    ensures
        ({
            let r = batch_result(b, now);
            let counts = tally(b.batch.ops, b.tracker);
            &&& r.input == b.batch.input_count
            &&& r.noop + r.added + r.deleted + r.failed == r.input
            &&& r.added == counts.added && r.deleted == counts.deleted && r.failed
                == counts.failed
            &&& now >= b.started_at ==> r.duration == now - b.started_at
            &&& now < b.started_at ==> r.duration == 0
        }),
{
    tally_counts_every_change(b.batch.ops, b.tracker);
}

/// A batch that is finished is in flight no longer; a batch of maintenance is handed to its job,
/// under its number and with its result, and one of pending changes to nobody.
pub proof fn finished_batch_goes_to_its_owner(c: Core, s: State, now: u64, b: Inflight)
    requires
        s.inflight == Some(b),
    ensures
        ({
            let (core, state) = finished(c, s, now);
            &&& state.inflight is None
            &&& core.owned == owned_after(c.owned, b.batch.ops, b.tracker)
            &&& core.next_seq == c.next_seq
            &&& b.batch.owner == InflightOwner::Pending ==> state.completed_batch
                == s.completed_batch
            &&& b.batch.owner == InflightOwner::Maintenance ==> (state.completed_batch matches
                Some(done) && done.batch_id == b.batch.batch_id && done.owner
                == InflightOwner::Maintenance && done.result == batch_result(b, now))
            &&& state.pending == s.pending && state.maintenance == s.maintenance
                && state.resync_requested == s.resync_requested && state.quiet_deadline
                == s.quiet_deadline && state.max_deadline == s.max_deadline
        }),
{
}

/// A batch that times out is in flight no longer, and what it owned stays as it was. Where it was
/// one of pending changes, the rules are compared with the addresses to make up for it; where it
/// was one of maintenance, its job is told that every change sent has failed.
pub proof fn timed_out_batch_is_made_up_for(s: State, now: u64, b: Inflight)
    requires
        s.inflight == Some(b),
        b.batch.noop_prefilter >= 0,
        b.batch.input_count == b.batch.noop_prefilter + b.batch.ops.len(),
        b.batch.input_count <= usize::MAX,
    ensures
        ({
            let state = timed_out(s, now);
            &&& state.inflight is None
            &&& b.batch.owner == InflightOwner::Pending ==> state.resync_requested
                && state.resync_compensate_pending && state.completed_batch == s.completed_batch
            &&& b.batch.owner == InflightOwner::Maintenance ==> {
                &&& state.resync_requested == s.resync_requested
                &&& state.resync_compensate_pending == s.resync_compensate_pending
                &&& state.completed_batch matches Some(done) && done.batch_id == b.batch.batch_id
                    && done.owner == InflightOwner::Maintenance && done.result.input
                    == b.batch.input_count && done.result.failed == b.batch.ops.len()
                    && done.result.noop == b.batch.noop_prefilter && done.result.added == 0
                    && done.result.deleted == 0 && done.result.duration == elapsed(
                    now,
                    b.started_at,
                )
            }
            &&& state.pending == s.pending && state.maintenance == s.maintenance
        }),
{
}

/// The changes that a timeout reports are those that were not acknowledged, each under the number
/// of its message.
pub proof fn unacknowledged_changes_are_reported(b: Inflight, n: int, q: u32, op: KeyOp)
    requires
        0 <= n <= b.batch.ops.len(),
        b.tracker.seen.len() == b.batch.ops.len(),
    ensures
        unseen_ops(b, n).contains((q, op)) <==> exists|i: int|
            0 <= i < n && !b.tracker.seen[i] && q == seq_after(b.batch.first_seq, i) as u32 && op
                == #[trigger] b.batch.ops[i],
    decreases n,
{
    if n > 0 {
        unacknowledged_changes_are_reported(b, n - 1, q, op);
        let fewer = unseen_ops(b, n - 1);
        let all = unseen_ops(b, n);
        let last = (seq_after(b.batch.first_seq, n - 1) as u32, b.batch.ops[n - 1]);
        if !b.tracker.seen[n - 1] {
            assert(all == fewer.push(last));
            assert(all.contains((q, op)) <==> fewer.contains((q, op)) || last == (q, op)) by {
                if fewer.contains((q, op)) {
                    let i = fewer.index_of((q, op));
                    assert(all[i] == (q, op));
                }
                if last == (q, op) {
                    assert(all[fewer.len() as int] == (q, op));
                }
                if all.contains((q, op)) && last != (q, op) {
                    let i = all.index_of((q, op));
                    assert(fewer[i] == (q, op));
                }
            }
        }
    }
}

// ---------------------------------------------------------------------------
// Deadlines
// ---------------------------------------------------------------------------

/// Pending changes are flushed once it has been quiet for long enough, once one has waited for
/// long enough, or by force, and not before.
pub proof fn pending_changes_are_flushed_in_time(s: State, now: u64, quiet: u128, max: u128)
    ensures
        s.pending.dom() == Set::<IpKey>::empty() ==> !flush_due(s, now, true) && !flush_due(
            s,
            now,
            false,
        ),
        s.pending.dom() != Set::<IpKey>::empty() ==> {
            &&& flush_due(s, now, true)
            &&& s.quiet_deadline == Some(quiet) && s.max_deadline == Some(max) ==> (flush_due(
                s,
                now,
                false,
            ) <==> now >= quiet || now >= max)
            &&& s.quiet_deadline == Some(quiet) && s.max_deadline is None ==> (flush_due(
                s,
                now,
                false,
            ) <==> now >= quiet)
            &&& s.quiet_deadline is None && s.max_deadline == Some(max) ==> (flush_due(
                s,
                now,
                false,
            ) <==> now >= max)
            &&& s.quiet_deadline is None && s.max_deadline is None ==> !flush_due(s, now, false)
        },
{
}

/// The daemon wakes for its deadlines: to flush, to give up on a batch, to try a cleanup again, and
/// after a millisecond where there is work to do; where there is nothing to wait for and nothing
/// to do, it sleeps.
pub proof fn daemon_wakes_for_its_deadlines(s: State, now: u64, d: u128)
    ensures
        s.quiet_deadline == Some(d) ==> is_deadline(s, now, d),
        s.max_deadline == Some(d) ==> is_deadline(s, now, d),
        s.inflight matches Some(b) ==> is_deadline(s, now, b.ack_deadline),
        s.maintenance != MaintenanceJob::Idle ==> is_deadline(
            s,
            now,
            (now + 1_000_000) as u128,
        ),
        s.inflight is None && s.resync_requested ==> is_deadline(
            s,
            now,
            (now + 1_000_000) as u128,
        ),
        s.inflight is None && s.shutdown_requested && !s.shutdown_cleanup_done ==> is_deadline(
            s,
            now,
            (now + 1_000_000) as u128,
        ),
        s.inflight is None && s.startup_cleanup_pending ==> (
        s.startup_cleanup_retry_deadline matches Some(r) ==> is_deadline(s, now, r)),
        s.inflight is None && s.startup_cleanup_pending && s.startup_cleanup_retry_deadline is None
            ==> is_deadline(s, now, (now + 1_000_000) as u128),
        s.quiet_deadline is None && s.max_deadline is None && s.inflight is None && s.maintenance
            == MaintenanceJob::Idle && !s.resync_requested && (!s.shutdown_requested
            || s.shutdown_cleanup_done) && !s.startup_cleanup_pending ==> !is_deadline(s, now, d),
        is_deadline(s, now, d) && d != now + 1_000_000 ==> {
            ||| s.quiet_deadline == Some(d)
            ||| s.max_deadline == Some(d)
            ||| s.inflight matches Some(b) && b.ack_deadline == d
            ||| s.inflight is None && s.startup_cleanup_pending
                && s.startup_cleanup_retry_deadline == Some(d)
        },
        s.inflight is Some && s.maintenance == MaintenanceJob::Idle && s.quiet_deadline is None
            && s.max_deadline is None && is_deadline(s, now, d) ==> (s.inflight matches Some(b)
            && b.ack_deadline == d),
{
}

/// The earlier of two times, or the one there is.
pub proof fn earlier_is_the_least(deadline: Option<u128>, value: u128)
    ensures
        earlier(deadline, value) matches Some(r) && r <= value && (deadline matches Some(d) ==> r
            <= d) && (r == value || deadline == Some(r)),
{
}

// ---------------------------------------------------------------------------
// Reports
// ---------------------------------------------------------------------------

/// The report of a batch that is finished names the batch, its first message, its result, and for
/// each of its changes, in order, what became of it.
pub proof fn finished_batch_is_reported(f: FinishedBatch, b: Inflight, now: u64, i: int)
    requires
        finished_as(f, b, now),
        0 <= i < b.batch.ops.len(),
    ensures
        f.batch_id == b.batch.batch_id,
        f.first_seq == b.batch.first_seq,
        f.result == batch_result(b, now),
        f.ops@.len() == b.batch.ops.len(),
        key_of(f.ops@[i].addr) == b.batch.ops[i].key,
        f.ops@[i].action == b.batch.ops[i].action,
        f.outcomes@.len() == b.batch.ops.len(),
        f.outcomes@[i]@ == outcome_at(b.batch.ops[i], b.tracker, i),
{
    assert(ops_view(f.ops@)[i] == b.batch.ops[i]);
    assert(ops_view(f.ops@).len() == f.ops@.len());
    assert(outcome_views(f.outcomes@)[i] == outcomes(b.batch.ops, b.tracker)[i]);
    assert(outcome_views(f.outcomes@).len() == outcomes(b.batch.ops, b.tracker).len());
}

/// The report of a batch that timed out names the batch, how many changes went into it and how many
/// were not acknowledged; it says that a comparison was asked for exactly where the batch was one
/// of pending changes and none had been asked for.
pub proof fn timed_out_batch_is_reported(t: TimedOutBatch, b: Inflight, asked: bool)
    requires
        timed_out_as(t, b, asked),
    ensures
        t.batch_id == b.batch.batch_id,
        t.input_count == b.batch.input_count,
        t.pending == b.tracker.pending,
        t.compensate <==> b.batch.owner == InflightOwner::Pending && !asked,
        seq_ops_view(t.unseen@) == unseen_ops(b, b.batch.ops.len() as int),
{
}

} // verus!
