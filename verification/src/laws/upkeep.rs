//! What maintenance does next, in which portions, and what it adds up.
use crate::daemon::batch_apply::{next_id, sent};
use crate::daemon::cleanup_run::{absorbed, at_end, cleanup_batch_size, with_target, Run};
use crate::daemon::maintenance::{
    budget_after, chunk_size, dump_begun, dump_ended, is_blocked, maintenance_sent, metrics_after,
    plan_built, shutdown_prepared, spend, step, summary_after, Action, Limits, MaintenanceReport,
};
use crate::daemon::resync_plan::{chunk_end, cleanup_chunk, diff};
use crate::daemon::state::{
    ApplyResult, Batch, CleanupSummary, CompletedBatch, Core, InflightOwner, KeyOp, MaintenanceJob,
    ResyncResult, State,
};
use crate::ip_key::{key_lt, IpKey};
use crate::ip_set::{ascending, sorted_lists_its_set};
use crate::netlink::rule::RuleAction;
use vstd::prelude::*;

verus! {

// ---------------------------------------------------------------------------
// Portions
// ---------------------------------------------------------------------------

/// A budget is spent down to zero and no further.
pub proof fn budgets_are_spent(budget: usize, n: usize)
    ensures
        n <= budget ==> spend(budget, n) + n == budget,
        n > budget ==> spend(budget, n) == 0,
{
}

/// A portion is as large as a batch and the budget both allow, and at least one.
pub proof fn portions_fit_batch_and_budget(batch_max: usize, budget: usize)
    ensures
        1 <= chunk_size(batch_max, budget),
        batch_max > 0 ==> chunk_size(batch_max, budget) <= batch_max,
        budget > 0 ==> chunk_size(batch_max, budget) <= budget,
        0 < batch_max <= budget ==> chunk_size(batch_max, budget) == batch_max,
        0 < budget <= batch_max ==> chunk_size(batch_max, budget) == budget,
        batch_max == 0 || budget == 0 ==> chunk_size(batch_max, budget) == 1,
{
}

/// A portion of a cleanup deletes the rules of the next keys in turn, as many as are left but no
/// more than the portion may hold, and goes on after the last of them.
pub proof fn portion_deletes_the_next_keys(keys: Seq<IpKey>, offset: int, max: int, i: int)
    requires
        0 <= offset <= keys.len(),
        max >= 0,
    ensures
        ({
            let ops = cleanup_chunk(keys, offset, max);
            &&& max <= keys.len() - offset ==> ops.len() == max
            &&& max > keys.len() - offset ==> ops.len() == keys.len() - offset
            &&& 0 <= i < ops.len() ==> ops[i].key == keys[offset + i] && ops[i].action
                == RuleAction::Delete
            &&& chunk_end(keys.len() as int, offset, max) == offset + ops.len()
        }),
{
}

/// Keys are in the order of their numbers, IPv4 first.
pub proof fn keys_are_ordered_by_number(a: u32, b: u32, c: u128, d: u128)
    ensures
        key_lt(IpKey::V4(a), IpKey::V4(b)) <==> a < b,
        key_lt(IpKey::V6(c), IpKey::V6(d)) <==> c < d,
        key_lt(IpKey::V4(a), IpKey::V6(d)),
        !key_lt(IpKey::V6(c), IpKey::V4(b)),
{
}

// ---------------------------------------------------------------------------
// What comes next
// ---------------------------------------------------------------------------

/// Of what an idle daemon has to do, its own cleanup comes first, once it was told to stop and
/// nothing is pending; then the cleanup at startup; then the comparison of the rules with the
/// addresses; and with none of these to do it does nothing.
#[verifier::rlimit(40)]
pub proof fn idle_daemon_takes_the_next_job(
    c: Core,
    s: State,
    budget: usize,
    limits: Limits,
    now: u64,
)
    requires
        s.maintenance == MaintenanceJob::Idle,
    ensures
        ({
            let r = step(c, s, budget, limits, now);
            let stops = s.shutdown_requested && s.pending.dom() == Set::<IpKey>::empty()
                && !s.shutdown_cleanup_done;
            &&& stops ==> (r.core, r.state) == shutdown_prepared(c, s) && r.action == Action::Again
            &&& !stops && s.startup_cleanup_pending ==> !(r.state.maintenance is ResyncBuild)
                && !(r.state.maintenance is CleanupTracked)
            &&& !stops && !s.startup_cleanup_pending && s.resync_requested ==> {
                &&& r.state.maintenance matches MaintenanceJob::ResyncBuild { batch_id } && batch_id
                    == s.batch_id
                &&& !r.state.resync_requested
                &&& r.action == Action::Again
                &&& r.core == c
                &&& r.state.pending == s.pending
                &&& r.state.resync_compensate_pending == s.resync_compensate_pending
            }
            &&& !stops && !s.startup_cleanup_pending && !s.resync_requested ==> r.core == c
                && r.state == s && r.action == Action::Yield
            &&& r.report is None && r.budget == budget
        }),
{
}

/// A daemon that stops gives up what it owns to a list, in order; the list is worked through from
/// its start, unless it is empty.
pub proof fn stop_lists_what_is_owned(c: Core, s: State)
    requires
        c.owned.finite(),
    ensures
        ({
            let (core, state) = shutdown_prepared(c, s);
            &&& core.owned == Set::<IpKey>::empty()
            &&& core.leaving.to_set() == c.owned && ascending(core.leaving)
            &&& core.next_seq == c.next_seq
            &&& core.leaving.len() == 0 ==> state.shutdown_cleanup_done && state.maintenance
                == MaintenanceJob::Idle && state.shutdown_cleanup.removed == 0
                && state.shutdown_cleanup.noop == 0 && state.shutdown_cleanup.failed == 0
            &&& core.leaving.len() > 0 ==> {
                &&& state.shutdown_cleanup_done == s.shutdown_cleanup_done
                &&& state.maintenance matches MaintenanceJob::CleanupTracked {
                    offset,
                    batch_id,
                    summary,
                    waiting_batch_id,
                } && offset == 0 && batch_id == s.batch_id && summary.removed == 0 && summary.noop
                    == 0 && summary.failed == 0 && waiting_batch_id is None
            }
            &&& state.pending == s.pending && state.inflight == s.inflight
                && state.shutdown_requested == s.shutdown_requested && state.resync_requested
                == s.resync_requested
        }),
{
    sorted_lists_its_set(c.owned);
}

/// The rules are compared with the addresses that were dumped, each once and in order, from the
/// start of both lists.
pub proof fn comparison_starts_with_both_lists(
    c: Core,
    s: State,
    batch_id: u64,
    dumped: Seq<IpKey>,
)
    requires
        c.owned.finite(),
    ensures
        ({
            let (core, state) = plan_built(c, s, batch_id, dumped);
            &&& core.target.to_set() == dumped.to_set() && ascending(core.target)
            &&& core.current.to_set() == c.owned && ascending(core.current)
            &&& core.owned == c.owned && core.next_seq == c.next_seq
            &&& state.maintenance matches MaintenanceJob::ResyncApply {
                target_idx,
                current_idx,
                batch_id: id,
                metrics,
                waiting_batch_id,
            } && target_idx == 0 && current_idx == 0 && id == batch_id && waiting_batch_id is None
                && metrics.add == 0 && metrics.del == 0 && metrics.failed == 0 && (
            core.target.len() <= usize::MAX ==> metrics.target == core.target.len()) && (
            core.current.len() <= usize::MAX ==> metrics.current == core.current.len())
            &&& state.pending == s.pending && state.inflight == s.inflight
                && state.resync_compensate_pending == s.resync_compensate_pending
        }),
{
    sorted_lists_its_set(c.owned);
    vstd::seq_lib::seq_to_set_is_finite(dumped);
    sorted_lists_its_set(dumped.to_set());
}

/// A comparison first asks for the addresses.
pub proof fn comparison_asks_for_the_addresses(
    c: Core,
    s: State,
    budget: usize,
    limits: Limits,
    now: u64,
)
    requires
        s.maintenance is ResyncBuild,
    ensures
        ({
            let r = step(c, s, budget, limits, now);
            &&& r.action == Action::Snapshot && r.core == c && r.state == s && r.report is None
            &&& budget > 0 ==> r.budget + 1 == budget
            &&& budget == 0 ==> r.budget == 0
        }),
{
}

// ---------------------------------------------------------------------------
// Batches of a job
// ---------------------------------------------------------------------------


/// A job waits until its own batch is done: until then a step does nothing.
#[verifier::rlimit(40)]
pub proof fn job_waits_for_its_batch(
    c: Core,
    s: State,
    budget: usize,
    limits: Limits,
    now: u64,
    id: u64,
)
    ensures
        !is_blocked(s, None),
        is_blocked(s, Some(id)) <==> !(s.completed_batch matches Some(done) && done.batch_id == id
            && done.owner == InflightOwner::Maintenance),
        s.maintenance matches MaintenanceJob::CleanupTracked { waiting_batch_id: Some(w), .. } && w
            == id && is_blocked(s, Some(id)) ==> ({
            let r = step(c, s, budget, limits, now);
            r.core == c && r.state == s && r.budget == budget && r.action == Action::Yield
                && r.report is None
        }),
        s.maintenance matches MaintenanceJob::ResyncApply { waiting_batch_id: Some(w), .. } && w
            == id && is_blocked(s, Some(id)) ==> ({
            let r = step(c, s, budget, limits, now);
            r.core == c && r.state == s && r.budget == budget && r.action == Action::Yield
                && r.report is None
        }),
        s.maintenance matches MaintenanceJob::StartupCleanupDumpApply {
            waiting_batch_id: Some(w),
            ..
        } && w == id && is_blocked(s, Some(id)) ==> ({
            let r = step(c, s, budget, limits, now);
            r.core == c && r.state == s && r.budget == budget && r.action == Action::Yield
                && r.report is None
        }),
{
}

/// A batch of a job is in flight once it is sent, and the job waits for it; how far the job has
/// come stays as it was.
pub proof fn job_waits_for_what_it_sent(s: State, b: Batch, now: u64)
    ensures
        ({
            let after = maintenance_sent(s, b, now);
            &&& after.inflight == Some(sent(b, now))
            &&& s.maintenance matches MaintenanceJob::CleanupTracked {
                offset,
                batch_id,
                summary,
                ..
            } ==> after.maintenance == (MaintenanceJob::CleanupTracked {
                offset,
                batch_id,
                summary,
                waiting_batch_id: Some(b.batch_id),
            })
            &&& s.maintenance matches MaintenanceJob::ResyncApply {
                target_idx,
                current_idx,
                batch_id,
                metrics,
                ..
            } ==> after.maintenance == (MaintenanceJob::ResyncApply {
                target_idx,
                current_idx,
                batch_id,
                metrics,
                waiting_batch_id: Some(b.batch_id),
            })
            &&& s.maintenance matches MaintenanceJob::StartupCleanupDumpApply {
                offset,
                batch_id,
                summary,
                next_family_idx,
                ..
            } ==> after.maintenance == (MaintenanceJob::StartupCleanupDumpApply {
                offset,
                batch_id,
                summary,
                waiting_batch_id: Some(b.batch_id),
                next_family_idx,
            })
            &&& after.pending == s.pending && after.resync_requested == s.resync_requested
                && after.completed_batch == s.completed_batch && after.batch_id == s.batch_id
        }),
{
}

/// What a batch came to is added to what the job came to, and costs its budget at least one.
pub proof fn results_are_added_up(
    summary: CleanupSummary,
    metrics: ResyncResult,
    done: CompletedBatch,
    budget: usize,
)
    ensures
        summary_after(summary, None) == summary,
        metrics_after(metrics, None) == metrics,
        budget_after(budget, None) == budget,
        ({
            let after = summary_after(summary, Some(done));
            let r = done.result;
            &&& summary.removed + r.deleted <= u128::MAX ==> after.removed == summary.removed
                + r.deleted
            &&& summary.noop + r.noop <= u128::MAX ==> after.noop == summary.noop + r.noop
            &&& summary.failed + r.failed <= u128::MAX ==> after.failed == summary.failed
                + r.failed
        }),
        ({
            let after = metrics_after(metrics, Some(done));
            let r = done.result;
            &&& after.target == metrics.target && after.current == metrics.current
            &&& metrics.add + r.added <= u128::MAX ==> after.add == metrics.add + r.added
            &&& metrics.del + r.deleted <= u128::MAX ==> after.del == metrics.del + r.deleted
            &&& metrics.failed + r.failed <= u128::MAX ==> after.failed == metrics.failed
                + r.failed
        }),
        ({
            let cost = if done.result.input == 0 {
                1
            } else {
                done.result.input as int
            };
            &&& cost <= budget ==> budget_after(budget, Some(done)) == budget - cost
            &&& cost > budget ==> budget_after(budget, Some(done)) == 0
        }),
{
}

/// The cleanup at the end sends the next portion of its list under the next number, and is done
/// once its list is at its end; it then reports what it came to.
#[verifier::rlimit(40)]
pub proof fn cleanup_works_through_its_list(
    c: Core,
    s: State,
    budget: usize,
    limits: Limits,
    now: u64,
    offset: usize,
    batch_id: u64,
    summary: CleanupSummary,
)
    requires
        s.maintenance == (MaintenanceJob::CleanupTracked {
            offset,
            batch_id,
            summary,
            waiting_batch_id: None,
        }),
        offset <= c.leaving.len() <= usize::MAX,
    ensures
        ({
            let r = step(c, s, budget, limits, now);
            &&& offset == c.leaving.len() ==> {
                &&& r.report == Some(MaintenanceReport::Cleanup(summary))
                &&& r.state.shutdown_cleanup_done && r.state.shutdown_cleanup == summary
                &&& r.state.maintenance == MaintenanceJob::Idle && r.state.batch_id == batch_id
                &&& r.action == Action::Again
            }
            &&& offset < c.leaving.len() ==> {
                &&& r.report is None && r.state.shutdown_cleanup_done == s.shutdown_cleanup_done
                &&& s.inflight is Some ==> r.action == Action::Yield
                &&& s.inflight is None ==> (r.action matches Action::SendBatch(b) && b.batch_id == next_id(batch_id)
                    && b.owner == InflightOwner::Maintenance && 1 <= b.ops.len() <= chunk_size(
                    limits.batch_max,
                    budget,
                ) && b.ops == cleanup_chunk(c.leaving, offset as int, b.ops.len() as int)
                    && r.state.maintenance == (MaintenanceJob::CleanupTracked {
                    offset: (offset + b.ops.len()) as usize,
                    batch_id: next_id(batch_id),
                    summary,
                    waiting_batch_id: None,
                }))
            }
        }),
{
    let max = chunk_size(limits.batch_max, budget) as int;
    portion_deletes_the_next_keys(c.leaving, offset as int, max, 0);
    if offset < c.leaving.len() {
        let n = cleanup_chunk(c.leaving, offset as int, max).len() as int;
        portion_deletes_the_next_keys(c.leaving, offset as int, n, 0);
        assert(cleanup_chunk(c.leaving, offset as int, max) =~= cleanup_chunk(
            c.leaving,
            offset as int,
            n,
        ));
    }
}

/// The removal of rules that were found at startup sends the next portion of its list under the
/// next number, until its list is at its end.
#[verifier::rlimit(40)]
pub proof fn startup_cleanup_works_through_its_list(
    c: Core,
    s: State,
    budget: usize,
    limits: Limits,
    now: u64,
    offset: usize,
    batch_id: u64,
    summary: CleanupSummary,
    next_family_idx: usize,
)
    requires
        s.maintenance == (MaintenanceJob::StartupCleanupDumpApply {
            offset,
            batch_id,
            summary,
            waiting_batch_id: None,
            next_family_idx,
        }),
        offset <= c.startup.len() <= usize::MAX,
    ensures
        ({
            let r = step(c, s, budget, limits, now);
            &&& offset == c.startup.len() ==> r.core.startup.len() == 0 && r.state.batch_id
                == batch_id && r.action == Action::Again
            &&& offset < c.startup.len() ==> {
                &&& r.report is None
                &&& s.inflight is Some ==> r.action == Action::Yield
                &&& s.inflight is None ==> (r.action matches Action::SendBatch(b) && b.batch_id == next_id(batch_id)
                    && b.owner == InflightOwner::Maintenance && 1 <= b.ops.len() <= chunk_size(
                    limits.batch_max,
                    budget,
                ) && b.ops == cleanup_chunk(c.startup, offset as int, b.ops.len() as int)
                    && r.state.maintenance == (MaintenanceJob::StartupCleanupDumpApply {
                    offset: (offset + b.ops.len()) as usize,
                    batch_id: next_id(batch_id),
                    summary,
                    waiting_batch_id: None,
                    next_family_idx,
                }))
            }
        }),
{
    let max = chunk_size(limits.batch_max, budget) as int;
    portion_deletes_the_next_keys(c.startup, offset as int, max, 0);
    if offset < c.startup.len() {
        let n = cleanup_chunk(c.startup, offset as int, max).len() as int;
        portion_deletes_the_next_keys(c.startup, offset as int, n, 0);
        assert(cleanup_chunk(c.startup, offset as int, max) =~= cleanup_chunk(
            c.startup,
            offset as int,
            n,
        ));
    }
}

/// A comparison sends the next differences under the next number, no more than a portion, and is
/// done once there is none; it then reports what it came to, and nothing is left to make up for.
#[verifier::rlimit(40)]
pub proof fn comparison_works_through_both_lists(
    c: Core,
    s: State,
    budget: usize,
    limits: Limits,
    now: u64,
    target_idx: usize,
    current_idx: usize,
    batch_id: u64,
    metrics: ResyncResult,
)
    requires
        s.maintenance == (MaintenanceJob::ResyncApply {
            target_idx,
            current_idx,
            batch_id,
            metrics,
            waiting_batch_id: None,
        }),
    ensures
        ({
            let r = step(c, s, budget, limits, now);
            let d = diff(
                c.target,
                c.current,
                target_idx as int,
                current_idx as int,
                chunk_size(limits.batch_max, budget) as int,
            );
            &&& d.ops.len() == 0 ==> {
                &&& r.report == Some(MaintenanceReport::Resync(metrics))
                &&& !r.state.resync_compensate_pending
                &&& r.state.maintenance == MaintenanceJob::Idle && r.state.batch_id == batch_id
                &&& r.action == Action::Again
                &&& r.core == c
            }
            &&& d.ops.len() > 0 ==> {
                &&& r.report is None
                &&& r.state.resync_compensate_pending == s.resync_compensate_pending
                &&& s.inflight is Some ==> r.action == Action::Yield
                &&& s.inflight is None ==> (r.action matches Action::SendBatch(b) && b.batch_id
                    == next_id(batch_id) && b.owner == InflightOwner::Maintenance && b.ops
                    == d.ops)
                &&& r.state.maintenance == (MaintenanceJob::ResyncApply {
                    target_idx: d.target_idx as usize,
                    current_idx: d.current_idx as usize,
                    batch_id: next_id(batch_id),
                    metrics,
                    waiting_batch_id: None,
                })
            }
        }),
{
}

// ---------------------------------------------------------------------------
// Dumps
// ---------------------------------------------------------------------------

/// A dump that is begun is read under its number, with nothing seen yet; one that is at its end is
/// followed by the removal of what it brought, from the start, or else by the next family.
pub proof fn dump_is_followed_by_removal(
    c: Core,
    s: State,
    q: u32,
    family_idx: usize,
    seq: Option<u32>,
    batch_id: u64,
    summary: CleanupSummary,
)
    requires
        s.maintenance == (MaintenanceJob::StartupCleanupDumpCollect {
            family_idx,
            seq,
            batch_id,
            summary,
        }),
        family_idx < usize::MAX,
    ensures
        ({
            let (core, state) = dump_begun(c, s, q);
            &&& core.dump_seen == Set::<IpKey>::empty() && core.startup == c.startup && core.owned
                == c.owned
            &&& state.maintenance == (MaintenanceJob::StartupCleanupDumpCollect {
                family_idx,
                seq: Some(q),
                batch_id,
                summary,
            })
        }),
        ({
            let after = dump_ended(c, s, family_idx, batch_id, summary).maintenance;
            &&& c.startup.len() == 0 ==> (after matches MaintenanceJob::StartupCleanupDumpCollect {
                family_idx: next,
                seq: None,
                batch_id: id,
                summary: sum,
            } && next == family_idx + 1 && id == batch_id && sum == summary)
            &&& c.startup.len() > 0 ==> (after matches MaintenanceJob::StartupCleanupDumpApply {
                offset,
                batch_id: id,
                summary: sum,
                waiting_batch_id: None,
                next_family_idx,
            } && offset == 0 && next_family_idx == family_idx + 1 && id == batch_id && sum
                == summary)
        }),
{
}

// ---------------------------------------------------------------------------
// A cleanup on its own
// ---------------------------------------------------------------------------

/// A cleanup on its own uses batches of at least 64 rules; a batch is handed out as soon as it is
/// full, the last one at the end, and each has the number after the one before.
pub proof fn cleanup_hands_out_full_batches(run: Run, op: KeyOp, batch_max: usize)
    requires
        run.batch_size >= 1,
        run.chunk.len() < run.batch_size,
    ensures
        cleanup_batch_size(batch_max) >= 64,
        cleanup_batch_size(batch_max) >= batch_max,
        cleanup_batch_size(batch_max) == 64 || cleanup_batch_size(batch_max) == batch_max,
        ({
            let (after, batch) = with_target(run, op);
            &&& batch is Some <==> run.chunk.len() + 1 == run.batch_size
            &&& batch matches Some(b) ==> b.1 == run.chunk.push(op) && b.0 == next_id(run.batch_id)
                && after.batch_id == b.0 && after.chunk.len() == 0
            &&& batch is None ==> after.chunk == run.chunk.push(op) && after.batch_id
                == run.batch_id
            &&& after.summary == run.summary && after.batch_size == run.batch_size
        }),
        ({
            let (after, batch) = at_end(run);
            &&& batch is Some <==> run.chunk.len() > 0
            &&& batch matches Some(b) ==> b.1 == run.chunk && b.0 == next_id(run.batch_id)
                && after.batch_id == b.0
            &&& after.chunk.len() == 0
            &&& after.summary == run.summary
        }),
{
}

/// What each batch came to is added up.
pub proof fn cleanup_adds_up_results(summary: CleanupSummary, r: ApplyResult)
    ensures
        ({
            let after = absorbed(summary, r);
            &&& summary.removed + r.deleted <= u128::MAX ==> after.removed == summary.removed
                + r.deleted
            &&& summary.noop + r.noop <= u128::MAX ==> after.noop == summary.noop + r.noop
            &&& summary.failed + r.failed <= u128::MAX ==> after.failed == summary.failed
                + r.failed
        }),
{
}

// ---------------------------------------------------------------------------
// Batches that are done
// ---------------------------------------------------------------------------

/// What is left of a budget after a batch, which costs at least one.
pub open spec fn left_after(budget: usize, done: CompletedBatch) -> usize {
    if done.result.input >= budget || budget == 1 {
        0
    } else if done.result.input == 0 {
        (budget - 1) as usize
    } else {
        (budget - done.result.input) as usize
    }
}

/// A cleanup at the end whose batch is done goes on as one that waits for none, with what the batch
/// came to added up, its cost taken off the budget, and the batch taken out of the daemon's hands.
#[verifier::rlimit(40)]
pub proof fn cleanup_goes_on_after_its_batch(
    c: Core,
    s: State,
    budget: usize,
    limits: Limits,
    now: u64,
    done: CompletedBatch,
    offset: usize,
    batch_id: u64,
    summary: CleanupSummary,
)
    requires
        s.completed_batch == Some(done),
        done.owner == InflightOwner::Maintenance,
        s.maintenance == (MaintenanceJob::CleanupTracked {
            offset,
            batch_id,
            summary,
            waiting_batch_id: Some(done.batch_id),
        }),
    ensures
        step(c, s, budget, limits, now) == step(
            c,
            State {
                completed_batch: None,
                maintenance: MaintenanceJob::CleanupTracked {
                    offset,
                    batch_id,
                    summary: absorbed(summary, done.result),
                    waiting_batch_id: None,
                },
                ..s
            },
            left_after(budget, done),
            limits,
            now,
        ),
{
    assert(budget_after(budget, Some(done)) == left_after(budget, done));
    assert(summary_after(summary, Some(done)) == absorbed(summary, done.result));
}

/// A removal of rules found at startup goes on in the same way.
#[verifier::rlimit(40)]
pub proof fn startup_cleanup_goes_on_after_its_batch(
    c: Core,
    s: State,
    budget: usize,
    limits: Limits,
    now: u64,
    done: CompletedBatch,
    offset: usize,
    batch_id: u64,
    summary: CleanupSummary,
    next_family_idx: usize,
)
    requires
        s.completed_batch == Some(done),
        done.owner == InflightOwner::Maintenance,
        s.maintenance == (MaintenanceJob::StartupCleanupDumpApply {
            offset,
            batch_id,
            summary,
            waiting_batch_id: Some(done.batch_id),
            next_family_idx,
        }),
    ensures
        step(c, s, budget, limits, now) == step(
            c,
            State {
                completed_batch: None,
                maintenance: MaintenanceJob::StartupCleanupDumpApply {
                    offset,
                    batch_id,
                    summary: absorbed(summary, done.result),
                    waiting_batch_id: None,
                    next_family_idx,
                },
                ..s
            },
            left_after(budget, done),
            limits,
            now,
        ),
{
    assert(budget_after(budget, Some(done)) == left_after(budget, done));
    assert(summary_after(summary, Some(done)) == absorbed(summary, done.result));
}

/// A comparison goes on in the same way.
#[verifier::rlimit(40)]
pub proof fn comparison_goes_on_after_its_batch(
    c: Core,
    s: State,
    budget: usize,
    limits: Limits,
    now: u64,
    done: CompletedBatch,
    target_idx: usize,
    current_idx: usize,
    batch_id: u64,
    metrics: ResyncResult,
)
    requires
        s.completed_batch == Some(done),
        done.owner == InflightOwner::Maintenance,
        s.maintenance == (MaintenanceJob::ResyncApply {
            target_idx,
            current_idx,
            batch_id,
            metrics,
            waiting_batch_id: Some(done.batch_id),
        }),
    ensures
        step(c, s, budget, limits, now) == step(
            c,
            State {
                completed_batch: None,
                maintenance: MaintenanceJob::ResyncApply {
                    target_idx,
                    current_idx,
                    batch_id,
                    metrics: metrics_after(metrics, Some(done)),
                    waiting_batch_id: None,
                },
                ..s
            },
            left_after(budget, done),
            limits,
            now,
        ),
{
    assert(budget_after(budget, Some(done)) == left_after(budget, done));
}

} // verus!
