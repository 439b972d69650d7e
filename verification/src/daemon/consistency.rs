//! What every event keeps.
use crate::daemon::batch_apply::{
    batch_result, batch_size, finished, flushed, lemma_effective_len, pending_ops, sent, tally,
    tally_counts_every_change, timed_out, Flush,
};
use crate::daemon::event_loop::{drain_finished, RouteDrain};
use crate::daemon::maintenance::{
    after_take_over, budget_after, chunk_size, cleanup_step, collect_step, consistent, dump_begun,
    dump_ended, idle_step, is_blocked, job_ok, maintenance_sent, metrics_after, outstanding,
    plan_built, resync_apply_step, retry_scheduled, send_failed, startup_apply_step, step,
    summary_after, taken_over, Action, Limits, Step,
};
use crate::daemon::resync_plan::{chunk_end, cleanup_chunk, lemma_diff_bounds};
use crate::daemon::state::{
    initial_state, waiting_for, Batch, CleanupSummary, Core, Inflight, InflightOwner,
    MaintenanceJob, ResyncResult, State,
};
use crate::ip_key::IpKey;
use crate::ip_set::sorted;
use crate::netlink::rule::Tracker;
use vstd::prelude::*;

verus! {

/// Whether a maintenance batch may be sent: nothing is under way, the job waits for nothing, and
/// its counts with the batch on top do not exceed what was worked through.
pub open spec fn sendable(c: Core, s: State, b: Batch) -> bool {
    &&& consistent(c, s)
    &&& s.inflight is None
    &&& s.completed_batch is None
    &&& s.maintenance is StartupCleanupDumpApply || s.maintenance is ResyncApply
        || s.maintenance is CleanupTracked
    &&& b.owner == InflightOwner::Maintenance
    &&& b.noop_prefilter == 0
    &&& b.input_count == b.ops.len()
    &&& b.input_count <= usize::MAX
    &&& job_ok(c, s.maintenance, b.input_count)
}

/// The invariant holds before the first event.
pub proof fn initial_state_is_consistent(c: Core)
    ensures
        consistent(c, initial_state()),
{
}

/// Where no job is under way, neither is a maintenance batch.
pub proof fn idle_means_no_batch(c: Core, s: State)
    requires
        consistent(c, s),
        waiting_for(s.maintenance) is None,
    ensures
        s.completed_batch is None,
        s.inflight matches Some(b) ==> b.batch.owner == InflightOwner::Pending,
        outstanding(s) == 0,
{
}

/// Whether a step keeps the invariant, and what it says to send may be sent.
pub open spec fn keeps_consistent(r: Step) -> bool {
    &&& consistent(r.core, r.state)
    &&& r.action matches Action::SendBatch(b) ==> sendable(r.core, r.state, b)
}

proof fn lemma_startup_apply(
    c: Core,
    s: State,
    budget: usize,
    limits: Limits,
    now: u64,
    offset: usize,
    batch_id: u64,
    summary: CleanupSummary,
    waiting: Option<u64>,
    next_family_idx: usize,
)
    requires
        consistent(c, s),
        c.startup.len() <= usize::MAX,
        s.maintenance == (MaintenanceJob::StartupCleanupDumpApply {
            offset,
            batch_id,
            summary,
            waiting_batch_id: waiting,
            next_family_idx,
        }),
    ensures
        keeps_consistent(
            startup_apply_step(
                c,
                s,
                budget,
                limits,
                now,
                offset,
                batch_id,
                summary,
                waiting,
                next_family_idx,
            ),
        ),
{
    if !is_blocked(s, waiting) {
        let done = taken_over(s, waiting);
        let after = summary_after(summary, done);
        assert(after.total() <= summary.total() + outstanding(s));
        let max = chunk_size(limits.batch_max, budget_after(budget, done)) as int;
        let ops = cleanup_chunk(c.startup, offset as int, max);
        assert(ops.len() == chunk_end(c.startup.len() as int, offset as int, max) - offset);
        assert(outstanding(after_take_over(s, waiting)) == 0);
    }
}

proof fn lemma_resync_apply(
    c: Core,
    s: State,
    budget: usize,
    limits: Limits,
    target_idx: usize,
    current_idx: usize,
    batch_id: u64,
    metrics: ResyncResult,
    waiting: Option<u64>,
)
    requires
        consistent(c, s),
        c.target.len() <= usize::MAX,
        c.current.len() <= usize::MAX,
        s.maintenance == (MaintenanceJob::ResyncApply {
            target_idx,
            current_idx,
            batch_id,
            metrics,
            waiting_batch_id: waiting,
        }),
    ensures
        keeps_consistent(
            resync_apply_step(
                c,
                s,
                budget,
                limits,
                target_idx,
                current_idx,
                batch_id,
                metrics,
                waiting,
            ),
        ),
{
    if !is_blocked(s, waiting) {
        let done = taken_over(s, waiting);
        let after = metrics_after(metrics, done);
        assert(after.add + after.del + after.failed <= metrics.add + metrics.del + metrics.failed
            + outstanding(s));
        lemma_diff_bounds(
            c.target,
            c.current,
            target_idx as int,
            current_idx as int,
            chunk_size(limits.batch_max, budget_after(budget, done)) as int,
        );
        assert(outstanding(after_take_over(s, waiting)) == 0);
    }
}

proof fn lemma_cleanup(
    c: Core,
    s: State,
    budget: usize,
    limits: Limits,
    offset: usize,
    batch_id: u64,
    summary: CleanupSummary,
    waiting: Option<u64>,
)
    requires
        consistent(c, s),
        c.leaving.len() <= usize::MAX,
        s.maintenance == (MaintenanceJob::CleanupTracked {
            offset,
            batch_id,
            summary,
            waiting_batch_id: waiting,
        }),
    ensures
        keeps_consistent(
            cleanup_step(c, s, budget, limits, offset, batch_id, summary, waiting),
        ),
{
    if !is_blocked(s, waiting) {
        let done = taken_over(s, waiting);
        let after = summary_after(summary, done);
        assert(after.total() <= summary.total() + outstanding(s));
        let max = chunk_size(limits.batch_max, budget_after(budget, done)) as int;
        let ops = cleanup_chunk(c.leaving, offset as int, max);
        assert(ops.len() == chunk_end(c.leaving.len() as int, offset as int, max) - offset);
        assert(outstanding(after_take_over(s, waiting)) == 0);
    }
}

proof fn lemma_idle(c: Core, s: State, budget: usize, now: u64)
    requires
        consistent(c, s),
        s.maintenance == MaintenanceJob::Idle,
        sorted(c.owned).len() <= usize::MAX,
    ensures
        keeps_consistent(idle_step(c, s, budget, now)),
{
    idle_means_no_batch(c, s);
}

proof fn lemma_collect(
    c: Core,
    s: State,
    budget: usize,
    limits: Limits,
    now: u64,
    family_idx: usize,
    seq: Option<u32>,
    batch_id: u64,
    summary: CleanupSummary,
)
    requires
        consistent(c, s),
        c.startup.len() <= usize::MAX,
        s.maintenance == (MaintenanceJob::StartupCleanupDumpCollect {
            family_idx,
            seq,
            batch_id,
            summary,
        }),
    ensures
        keeps_consistent(
            collect_step(c, s, budget, limits, now, family_idx, seq, batch_id, summary),
        ),
{
    idle_means_no_batch(c, s);
}

/// A job whose batch has not come to its end waits, in every state of the daemon: the batch that
/// has come to its end, the job and all counts stay as they are, and the slice is over.
pub proof fn blocked_job_waits(c: Core, s: State, budget: usize, limits: Limits, now: u64)
    requires
        is_blocked(s, waiting_for(s.maintenance)),
    ensures
        step(c, s, budget, limits, now) == (Step {
            core: c,
            state: s,
            budget,
            action: Action::Yield,
            report: None,
        }),
{
}

/// Every step of maintenance keeps the invariant, and what it says to send may be sent.
pub proof fn step_keeps_consistent(c: Core, s: State, budget: usize, limits: Limits, now: u64)
    requires
        consistent(c, s),
        c.startup.len() <= usize::MAX,
        c.target.len() <= usize::MAX,
        c.current.len() <= usize::MAX,
        c.leaving.len() <= usize::MAX,
        sorted(c.owned).len() <= usize::MAX,
    ensures
        keeps_consistent(step(c, s, budget, limits, now)),
{
    match s.maintenance {
        MaintenanceJob::Idle => {
            lemma_idle(c, s, budget, now);
        },
        MaintenanceJob::ResyncBuild { .. } => {},
        MaintenanceJob::StartupCleanupDumpCollect { family_idx, seq, batch_id, summary } => {
            lemma_collect(c, s, budget, limits, now, family_idx, seq, batch_id, summary);
        },
        MaintenanceJob::StartupCleanupDumpApply {
            offset,
            batch_id,
            summary,
            waiting_batch_id,
            next_family_idx,
        } => {
            lemma_startup_apply(
                c,
                s,
                budget,
                limits,
                now,
                offset,
                batch_id,
                summary,
                waiting_batch_id,
                next_family_idx,
            );
        },
        MaintenanceJob::ResyncApply {
            target_idx,
            current_idx,
            batch_id,
            metrics,
            waiting_batch_id,
        } => {
            lemma_resync_apply(
                c,
                s,
                budget,
                limits,
                target_idx,
                current_idx,
                batch_id,
                metrics,
                waiting_batch_id,
            );
        },
        MaintenanceJob::CleanupTracked { offset, batch_id, summary, waiting_batch_id } => {
            lemma_cleanup(c, s, budget, limits, offset, batch_id, summary, waiting_batch_id);
        },
    }
}

/// To send a batch that may be sent keeps the invariant.
pub proof fn sending_keeps_consistent(c: Core, s: State, b: Batch, now: u64)
    requires
        sendable(c, s, b),
    ensures
        consistent(c, maintenance_sent(s, b, now)),
{
}

/// A failure to send keeps the invariant.
pub proof fn send_failure_keeps_consistent(c: Core, s: State, now: u64)
    requires
        consistent(c, s),
        s.inflight is None,
        s.completed_batch is None,
    ensures
        consistent(send_failed(c, s, now).0, send_failed(c, s, now).1),
{
}

/// The end of a batch keeps the invariant.
pub proof fn finish_keeps_consistent(c: Core, s: State, now: u64)
    requires
        consistent(c, s),
    ensures
        consistent(finished(c, s, now).0, finished(c, s, now).1),
{
    if let Some(b) = s.inflight {
        tally_counts_every_change(b.batch.ops, b.tracker);
        let r = batch_result(b, now);
        let counts = tally(b.batch.ops, b.tracker);
        assert(r.noop == b.batch.noop_prefilter + counts.noop);
    }
}

/// To give up acknowledgements keeps the invariant.
pub proof fn timeout_keeps_consistent(c: Core, s: State, now: u64)
    requires
        consistent(c, s),
    ensures
        consistent(c, timed_out(s, now)),
{
}

/// To take in acknowledgements keeps the invariant.
pub proof fn acks_keep_consistent(c: Core, s: State, t: Tracker)
    requires
        consistent(c, s),
        s.inflight is Some,
    ensures
        consistent(
            c,
            State { inflight: Some(Inflight { tracker: t, ..s.inflight->Some_0 }), ..s },
        ),
{
}

/// A flush of pending changes keeps the invariant, also once its batch was sent.
pub proof fn flush_keeps_consistent(
    c: Core,
    s: State,
    keys: Seq<IpKey>,
    batch_max: usize,
    debounce_ms: u64,
    debounce_max_ms: u64,
    now: u64,
    later: u64,
)
    requires
        consistent(c, s),
    ensures
        ({
            let (c2, s2, f) = flushed(c, s, keys, batch_max, debounce_ms, debounce_max_ms, now);
            &&& consistent(c2, s2)
            &&& f matches Flush::Send(b) ==> s2.inflight is None && consistent(
                c2,
                State { inflight: Some(sent(b, later)), ..s2 },
            )
        }),
{
    let n = batch_size(batch_max, keys.len());
    if n <= keys.len() {
        lemma_effective_len(pending_ops(s.pending, keys.subrange(0, n as int)), c.owned);
    }
}

/// Route events and signals keep the invariant.
pub proof fn other_events_keep_consistent(
    c: Core,
    s: State,
    d: RouteDrain,
    slots: nat,
    debounce_ms: u64,
    debounce_max_ms: u64,
    now: u64,
)
    requires
        consistent(c, s),
    ensures
        consistent(c, drain_finished(s, d, slots, debounce_ms, debounce_max_ms, now)),
        consistent(c, State { resync_requested: true, ..s }),
        consistent(c, State { shutdown_requested: true, ..s }),
{
}

/// The reports of a rule dump keep the invariant.
pub proof fn dump_keeps_consistent(c: Core, s: State, q: u32, now: u64)
    requires
        consistent(c, s),
        s.maintenance is StartupCleanupDumpCollect,
        c.startup.len() <= usize::MAX,
    ensures
        consistent(dump_begun(c, s, q).0, dump_begun(c, s, q).1),
        consistent(retry_scheduled(c, s, now).0, retry_scheduled(c, s, now).1),
        s.maintenance matches MaintenanceJob::StartupCleanupDumpCollect {
            family_idx,
            batch_id,
            summary,
            ..
        } ==> (family_idx <= 1 ==> consistent(
            c,
            dump_ended(c, s, family_idx, batch_id, summary),
        )),
{
}

/// The reports of a snapshot keep the invariant.
pub proof fn snapshot_keeps_consistent(c: Core, s: State, dumped: Seq<IpKey>)
    requires
        consistent(c, s),
        s.maintenance is ResyncBuild,
        sorted(c.owned).len() <= usize::MAX,
        sorted(dumped.to_set()).len() <= usize::MAX,
    ensures
        ({
            let (c2, s2) = plan_built(c, s, s.maintenance->ResyncBuild_batch_id, dumped);
            consistent(c2, s2)
        }),
        consistent(c, State { resync_requested: true, maintenance: MaintenanceJob::Idle, ..s }),
{
}

} // verus!
