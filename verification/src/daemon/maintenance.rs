//! Maintenance between events: startup cleanup, resynchronisation, and cleanup at the end.
//!
//! Maintenance is done in slices. A slice is a number of steps; each step says what is to be
//! done outside, and the outcome of that is reported back before the next step.
use crate::bytes::low_byte;
use crate::daemon::batch_apply::{
    batch_sent, elapsed, maintenance_batch, next_batch_id, next_id, sent,
};
use crate::daemon::resync_plan::{
    chunk_end, cleanup_chunk, diff, fill_resync_chunk, fill_tracked_cleanup_chunk,
};
use crate::daemon::state::{
    no_summary, ops_view, waiting_for, Batch, CleanupSummary, CompletedBatch, Core, Daemon,
    EventLoopState, InflightOwner, KeyOp, MaintenanceJob, OutboundBatch, ResyncResult, State,
    MAINTENANCE_TIME_BUDGET, STARTUP_CLEANUP_RETRY_DELAY, STARTUP_CLEANUP_RETRY_LIMIT,
};
use crate::error::AppError;
use crate::ip_key::IpKey;
use crate::ip_set::{ascending, sort_dedup, sorted, IpSet};
use crate::netlink::cleanup::{
    build_rule_dump_message, cleanup_targets, poll_cleanup_targets, rule_dump_message,
    CleanupDumpPoll,
};
use crate::netlink::codec::{next_seq, seq_after, seq_norm};
use crate::netlink::dump_engine::{dump_of, recv_step};
use crate::netlink::rule::RuleOp;
use crate::netlink::socket::{packet_items, MmsgRxRing};
use crate::sys::{AF_INET, AF_INET6};
use vstd::prelude::*;

verus! {

// ---------------------------------------------------------------------------
// Families
// ---------------------------------------------------------------------------

/// The family at a place in the list of families, from `start_idx` on, that is in use.
pub open spec fn family_from(start_idx: int, ipv6_enabled: bool) -> Option<(int, i32)> {
    if start_idx == 0 {
        Some((0, AF_INET))
    } else if start_idx == 1 && ipv6_enabled {
        Some((1, AF_INET6))
    } else {
        None
    }
}

/// The next family whose rules are to be cleaned up, with its place in the list of families.
pub fn next_startup_cleanup_family(start_idx: usize, ipv6_enabled: bool) -> (r: Option<
    (usize, i32),
>)
    ensures
        match r {
            Some((i, family)) => family_from(start_idx as int, ipv6_enabled) == Some(
                (i as int, family),
            ) && i == start_idx && i <= 1,
            None => family_from(start_idx as int, ipv6_enabled) is None,
        },
{
    if start_idx == 0 {
        Some((0, AF_INET))
    } else if start_idx == 1 && ipv6_enabled {
        Some((1, AF_INET6))
    } else {
        None
    }
}

/// The family at a place in the list of families.
pub open spec fn family_at(idx: int) -> i32 {
    if idx == 0 {
        AF_INET
    } else {
        AF_INET6
    }
}

// ---------------------------------------------------------------------------
// Steps
// ---------------------------------------------------------------------------

/// What is to be done outside.
pub enum Action {
    /// Nothing: this slice is over.
    Yield,
    /// Nothing: take the next step.
    Again,
    /// Ask for the rules of a family.
    StartDump { family: i32, seq: u32 },
    /// Read what there is of the rules of a family.
    PollDump { family: i32, seq: u32 },
    /// List the addresses of the interfaces.
    Snapshot,
    /// Send a batch.
    SendBatch(Batch),
}

/// What is to be done outside.
pub enum MaintenanceAction {
    Yield,
    Again,
    StartDump { family: i32, seq: u32, message: Vec<u8> },
    PollDump { family: i32, seq: u32 },
    Snapshot,
    SendBatch(OutboundBatch),
}

impl View for MaintenanceAction {
    type V = Action;

    open spec fn view(&self) -> Action {
        match self {
            MaintenanceAction::Yield => Action::Yield,
            MaintenanceAction::Again => Action::Again,
            MaintenanceAction::StartDump { family, seq, .. } => Action::StartDump {
                family: *family,
                seq: *seq,
            },
            MaintenanceAction::PollDump { family, seq } => Action::PollDump {
                family: *family,
                seq: *seq,
            },
            MaintenanceAction::Snapshot => Action::Snapshot,
            MaintenanceAction::SendBatch(batch) => Action::SendBatch(batch@),
        }
    }
}

/// What a step is to be logged with.
#[derive(Debug, Clone, Copy, PartialEq, Eq, Structural)]
pub enum MaintenanceReport {
    /// The startup cleanup is done; it took that many nanoseconds.
    StartupCleanup { summary: CleanupSummary, duration: u64 },
    /// The resynchronisation is done.
    Resync(ResyncResult),
    /// The cleanup at the end is done.
    Cleanup(CleanupSummary),
}

/// What a step comes to.
pub struct StepResult {
    pub action: MaintenanceAction,
    pub report: Option<MaintenanceReport>,
}

/// What a step comes to, with the daemon and the state after it.
pub struct Step {
    pub core: Core,
    pub state: State,
    pub budget: usize,
    pub action: Action,
    pub report: Option<MaintenanceReport>,
}

/// The options that steps depend on.
pub struct Limits {
    pub ipv6: bool,
    pub batch_max: usize,
}

/// A budget with that much taken from it, but not below zero.
pub open spec fn spend(budget: usize, n: usize) -> usize {
    if n <= budget {
        (budget - n) as usize
    } else {
        0
    }
}

/// At least one.
pub open spec fn one_or_more(n: usize) -> usize {
    if n == 0 {
        1
    } else {
        n
    }
}

/// How many changes go into a chunk: as many as a batch holds and the budget allows, but at
/// least one.
pub open spec fn chunk_size(batch_max: usize, budget: usize) -> usize {
    if one_or_more(batch_max) < one_or_more(budget) {
        one_or_more(batch_max)
    } else {
        one_or_more(budget)
    }
}

/// Whether a slice goes on: some of its budget is left, of steps and of time.
pub fn slice_goes_on(budget: usize, started: u64, now: u64) -> (r: bool)
    ensures
        r == (budget > 0 && elapsed(now, started) < MAINTENANCE_TIME_BUDGET),
        r <==> budget > 0 && now < started + 8_000_000,
{
    let spent: u64 = if now >= started {
        now - started
    } else {
        0
    };
    budget > 0 && spent < MAINTENANCE_TIME_BUDGET
}

/// The cleanup at the end is prepared: the rules that are owned are to be deleted in ascending
/// order, and none is owned any more.
pub open spec fn shutdown_prepared(c: Core, s: State) -> (Core, State) {
    let keys = sorted(c.owned);
    (
        Core { owned: Set::empty(), leaving: keys, ..c },
        if keys.len() == 0 {
            State {
                shutdown_cleanup_done: true,
                shutdown_cleanup: no_summary(),
                maintenance: MaintenanceJob::Idle,
                ..s
            }
        } else {
            State {
                maintenance: MaintenanceJob::CleanupTracked {
                    offset: 0,
                    batch_id: s.batch_id,
                    summary: no_summary(),
                    waiting_batch_id: None,
                },
                ..s
            }
        },
    )
}

/// A step where no job is under way: the cleanup at the end comes first, then the startup
/// cleanup, then a resynchronisation.
pub open spec fn idle_step(c: Core, s: State, budget: usize, now: u64) -> Step {
    if s.shutdown_requested && s.pending.dom() == Set::<IpKey>::empty()
        && !s.shutdown_cleanup_done {
        let (core, state) = shutdown_prepared(c, s);
        Step { core, state, budget, action: Action::Again, report: None }
    } else if s.startup_cleanup_pending {
        if s.startup_cleanup_retry_deadline matches Some(d) && now < d {
            Step { core: c, state: s, budget, action: Action::Yield, report: None }
        } else {
            Step {
                core: Core { startup: Seq::empty(), ..c },
                state: State {
                    startup_cleanup_pending: false,
                    startup_cleanup_retry_deadline: None,
                    startup_cleanup_started_at: Some(now),
                    maintenance: MaintenanceJob::StartupCleanupDumpCollect {
                        family_idx: 0,
                        seq: None,
                        batch_id: s.batch_id,
                        summary: no_summary(),
                    },
                    ..s
                },
                budget,
                action: Action::Again,
                report: None,
            }
        }
    } else if s.resync_requested {
        Step {
            core: c,
            state: State {
                resync_requested: false,
                maintenance: MaintenanceJob::ResyncBuild { batch_id: s.batch_id },
                ..s
            },
            budget,
            action: Action::Again,
            report: None,
        }
    } else {
        Step { core: c, state: s, budget, action: Action::Yield, report: None }
    }
}

/// The state after the startup cleanup; a resynchronisation follows.
pub open spec fn startup_done(s: State, batch_id: u64) -> State {
    State {
        startup_cleanup_retry_count: 0,
        startup_cleanup_started_at: None,
        resync_requested: true,
        batch_id,
        maintenance: MaintenanceJob::Idle,
        ..s
    }
}

/// What the end of the startup cleanup is logged with.
pub open spec fn startup_report(s: State, summary: CleanupSummary, now: u64) -> MaintenanceReport {
    MaintenanceReport::StartupCleanup {
        summary,
        duration: match s.startup_cleanup_started_at {
            Some(started) => elapsed(now, started),
            None => 0,
        },
    }
}

/// A step of listing the rules that an earlier process left behind.
pub open spec fn collect_step(
    c: Core,
    s: State,
    budget: usize,
    limits: Limits,
    now: u64,
    family_idx: usize,
    seq: Option<u32>,
    batch_id: u64,
    summary: CleanupSummary,
) -> Step {
    match family_from(family_idx as int, limits.ipv6) {
        None => if c.startup.len() == 0 {
            Step {
                core: c,
                state: startup_done(s, batch_id),
                budget: spend(budget, 1),
                action: Action::Again,
                report: Some(startup_report(s, summary, now)),
            }
        } else {
            Step {
                core: c,
                state: State {
                    maintenance: MaintenanceJob::StartupCleanupDumpApply {
                        offset: 0,
                        batch_id,
                        summary,
                        waiting_batch_id: None,
                        next_family_idx: (family_idx + 1) as usize,
                    },
                    ..s
                },
                budget: spend(budget, 1),
                action: Action::Again,
                report: None,
            }
        },
        Some((_, family)) => match seq {
            None => Step {
                core: Core { next_seq: seq_after(c.next_seq, 1) as u32, ..c },
                state: s,
                budget: spend(budget, 1),
                action: Action::StartDump { family, seq: seq_norm(c.next_seq) as u32 },
                report: None,
            },
            Some(q) => Step {
                core: c,
                state: s,
                budget: spend(budget, 1),
                action: Action::PollDump { family, seq: q },
                report: None,
            },
        },
    }
}

/// Whether a job that waits for a batch has to go on waiting.
pub open spec fn is_blocked(s: State, waiting: Option<u64>) -> bool {
    match waiting {
        None => false,
        Some(id) => match s.completed_batch {
            None => true,
            Some(done) => done.owner != InflightOwner::Maintenance || done.batch_id != id,
        },
    }
}

/// The batch that a job that does not have to wait takes over, if it waited for one.
pub open spec fn taken_over(s: State, waiting: Option<u64>) -> Option<CompletedBatch> {
    if waiting is Some {
        s.completed_batch
    } else {
        None
    }
}

/// The state once the batch was taken over.
pub open spec fn after_take_over(s: State, waiting: Option<u64>) -> State {
    if waiting is Some {
        State { completed_batch: None, ..s }
    } else {
        s
    }
}

/// The budget once the batch was taken over.
pub open spec fn budget_after(budget: usize, done: Option<CompletedBatch>) -> usize {
    match done {
        Some(d) => spend(budget, one_or_more(d.result.input)),
        None => budget,
    }
}

/// The summary once the batch was taken over.
pub open spec fn summary_after(
    summary: CleanupSummary,
    done: Option<CompletedBatch>,
) -> CleanupSummary {
    match done {
        Some(d) => CleanupSummary {
            removed: (summary.removed + d.result.deleted) as u128,
            noop: (summary.noop + d.result.noop) as u128,
            failed: (summary.failed + d.result.failed) as u128,
        },
        None => summary,
    }
}

/// The metrics once the batch was taken over.
pub open spec fn metrics_after(metrics: ResyncResult, done: Option<CompletedBatch>) -> ResyncResult {
    match done {
        Some(d) => ResyncResult {
            add: (metrics.add + d.result.added) as u128,
            del: (metrics.del + d.result.deleted) as u128,
            failed: (metrics.failed + d.result.failed) as u128,
            ..metrics
        },
        None => metrics,
    }
}

/// A step that sends a chunk, or ends its slice where a batch is under way.
pub open spec fn send_step(
    c: Core,
    s: State,
    budget: usize,
    batch_id: u64,
    ops: Seq<KeyOp>,
    job: MaintenanceJob,
) -> Step {
    let state = State { maintenance: job, ..s };
    let (core, batch) = maintenance_batch(c, s, batch_id, ops);
    Step {
        core,
        state,
        budget,
        action: match batch {
            Some(b) => Action::SendBatch(b),
            None => Action::Yield,
        },
        report: None,
    }
}

/// A step of deleting the rules that an earlier process left behind.
pub open spec fn startup_apply_step(
    c: Core,
    s: State,
    budget: usize,
    limits: Limits,
    now: u64,
    offset: usize,
    batch_id: u64,
    summary: CleanupSummary,
    waiting: Option<u64>,
    next_family_idx: usize,
) -> Step {
    if is_blocked(s, waiting) {
        Step { core: c, state: s, budget, action: Action::Yield, report: None }
    } else {
        let done = taken_over(s, waiting);
        let s = after_take_over(s, waiting);
        let budget = budget_after(budget, done);
        let summary = summary_after(summary, done);
        let max = chunk_size(limits.batch_max, budget) as int;
        let ops = cleanup_chunk(c.startup, offset as int, max);
        if ops.len() == 0 {
            let core = Core { startup: Seq::empty(), ..c };
            if family_from(next_family_idx as int, limits.ipv6) is Some {
                Step {
                    core,
                    state: State {
                        batch_id,
                        maintenance: MaintenanceJob::StartupCleanupDumpCollect {
                            family_idx: next_family_idx,
                            seq: None,
                            batch_id,
                            summary,
                        },
                        ..s
                    },
                    budget,
                    action: Action::Again,
                    report: None,
                }
            } else {
                Step {
                    core,
                    state: startup_done(s, batch_id),
                    budget,
                    action: Action::Again,
                    report: Some(startup_report(s, summary, now)),
                }
            }
        } else {
            send_step(
                c,
                s,
                budget,
                next_id(batch_id),
                ops,
                MaintenanceJob::StartupCleanupDumpApply {
                    offset: chunk_end(c.startup.len() as int, offset as int, max) as usize,
                    batch_id: next_id(batch_id),
                    summary,
                    waiting_batch_id: None,
                    next_family_idx,
                },
            )
        }
    }
}

/// A step of making the rules agree with the addresses of the interfaces.
pub open spec fn resync_apply_step(
    c: Core,
    s: State,
    budget: usize,
    limits: Limits,
    target_idx: usize,
    current_idx: usize,
    batch_id: u64,
    metrics: ResyncResult,
    waiting: Option<u64>,
) -> Step {
    if is_blocked(s, waiting) {
        Step { core: c, state: s, budget, action: Action::Yield, report: None }
    } else {
        let done = taken_over(s, waiting);
        let s = after_take_over(s, waiting);
        let budget = budget_after(budget, done);
        let metrics = metrics_after(metrics, done);
        let d = diff(
            c.target,
            c.current,
            target_idx as int,
            current_idx as int,
            chunk_size(limits.batch_max, budget) as int,
        );
        if d.ops.len() == 0 {
            Step {
                core: c,
                state: State {
                    resync_compensate_pending: false,
                    batch_id,
                    maintenance: MaintenanceJob::Idle,
                    ..s
                },
                budget,
                action: Action::Again,
                report: Some(MaintenanceReport::Resync(metrics)),
            }
        } else {
            send_step(
                c,
                s,
                budget,
                next_id(batch_id),
                d.ops,
                MaintenanceJob::ResyncApply {
                    target_idx: d.target_idx as usize,
                    current_idx: d.current_idx as usize,
                    batch_id: next_id(batch_id),
                    metrics,
                    waiting_batch_id: None,
                },
            )
        }
    }
}

/// A step of deleting the rules of this process.
pub open spec fn cleanup_step(
    c: Core,
    s: State,
    budget: usize,
    limits: Limits,
    offset: usize,
    batch_id: u64,
    summary: CleanupSummary,
    waiting: Option<u64>,
) -> Step {
    if is_blocked(s, waiting) {
        Step { core: c, state: s, budget, action: Action::Yield, report: None }
    } else {
        let done = taken_over(s, waiting);
        let s = after_take_over(s, waiting);
        let budget = budget_after(budget, done);
        let summary = summary_after(summary, done);
        let max = chunk_size(limits.batch_max, budget) as int;
        let ops = cleanup_chunk(c.leaving, offset as int, max);
        if ops.len() == 0 {
            Step {
                core: c,
                state: State {
                    shutdown_cleanup_done: true,
                    shutdown_cleanup: summary,
                    batch_id,
                    maintenance: MaintenanceJob::Idle,
                    ..s
                },
                budget,
                action: Action::Again,
                report: Some(MaintenanceReport::Cleanup(summary)),
            }
        } else {
            send_step(
                c,
                s,
                budget,
                next_id(batch_id),
                ops,
                MaintenanceJob::CleanupTracked {
                    offset: chunk_end(c.leaving.len() as int, offset as int, max) as usize,
                    batch_id: next_id(batch_id),
                    summary,
                    waiting_batch_id: None,
                },
            )
        }
    }
}

/// What the next step comes to.
pub open spec fn step(c: Core, s: State, budget: usize, limits: Limits, now: u64) -> Step {
    match s.maintenance {
        MaintenanceJob::Idle => idle_step(c, s, budget, now),
        MaintenanceJob::StartupCleanupDumpCollect { family_idx, seq, batch_id, summary } =>
            collect_step(c, s, budget, limits, now, family_idx, seq, batch_id, summary),
        MaintenanceJob::StartupCleanupDumpApply {
            offset,
            batch_id,
            summary,
            waiting_batch_id,
            next_family_idx,
        } => startup_apply_step(
            c,
            s,
            budget,
            limits,
            now,
            offset,
            batch_id,
            summary,
            waiting_batch_id,
            next_family_idx,
        ),
        MaintenanceJob::ResyncBuild { .. } => Step {
            core: c,
            state: s,
            budget: spend(budget, 1),
            action: Action::Snapshot,
            report: None,
        },
        MaintenanceJob::ResyncApply {
            target_idx,
            current_idx,
            batch_id,
            metrics,
            waiting_batch_id,
        } => resync_apply_step(
            c,
            s,
            budget,
            limits,
            target_idx,
            current_idx,
            batch_id,
            metrics,
            waiting_batch_id,
        ),
        MaintenanceJob::CleanupTracked { offset, batch_id, summary, waiting_batch_id } =>
            cleanup_step(c, s, budget, limits, offset, batch_id, summary, waiting_batch_id),
    }
}

// ---------------------------------------------------------------------------
// The invariant
// ---------------------------------------------------------------------------

/// How many changes of the job's batch are not accounted for yet.
pub open spec fn outstanding(s: State) -> int {
    match s.completed_batch {
        Some(done) => done.result.input as int,
        None => match s.inflight {
            Some(b) => if b.batch.owner == InflightOwner::Maintenance {
                b.batch.input_count
            } else {
                0
            },
            None => 0,
        },
    }
}

/// Whether a job is within its lists, and its counts do not exceed what was worked through.
pub open spec fn job_ok(c: Core, job: MaintenanceJob, open_count: int) -> bool {
    match job {
        MaintenanceJob::Idle => true,
        MaintenanceJob::ResyncBuild { .. } => true,
        MaintenanceJob::StartupCleanupDumpCollect { family_idx, summary, .. } => {
            &&& family_idx <= 2
            &&& summary.total() <= family_idx * 0xFFFF_FFFF_FFFF_FFFF
        },
        MaintenanceJob::StartupCleanupDumpApply { offset, summary, next_family_idx, .. } => {
            &&& 1 <= next_family_idx <= 3
            &&& offset <= c.startup.len() <= 0xFFFF_FFFF_FFFF_FFFF
            &&& summary.total() + open_count <= (next_family_idx - 1) * 0xFFFF_FFFF_FFFF_FFFF
                + offset
        },
        MaintenanceJob::ResyncApply { target_idx, current_idx, metrics, .. } => {
            &&& target_idx <= c.target.len() <= 0xFFFF_FFFF_FFFF_FFFF
            &&& current_idx <= c.current.len() <= 0xFFFF_FFFF_FFFF_FFFF
            &&& metrics.add + metrics.del + metrics.failed + open_count <= target_idx
                + current_idx
        },
        MaintenanceJob::CleanupTracked { offset, summary, .. } => {
            &&& offset <= c.leaving.len() <= 0xFFFF_FFFF_FFFF_FFFF
            &&& summary.total() + open_count <= offset
        },
    }
}

/// Whether a batch that has come to its end is the one that the job waits for, with every
/// change accounted for.
pub open spec fn completed_ok(job: MaintenanceJob, done: CompletedBatch) -> bool {
    &&& done.owner == InflightOwner::Maintenance
    &&& waiting_for(job) == Some(done.batch_id)
    &&& done.result.noop + done.result.added + done.result.deleted + done.result.failed
        == done.result.input
}

/// Whether a batch under way has every change accounted for and, where it is a maintenance
/// batch, is the one that the job waits for.
pub open spec fn inflight_ok(job: MaintenanceJob, b: Batch) -> bool {
    &&& 0 <= b.noop_prefilter
    &&& b.input_count == b.noop_prefilter + b.ops.len()
    &&& b.input_count <= usize::MAX
    &&& b.owner == InflightOwner::Maintenance ==> waiting_for(job) == Some(b.batch_id)
        && b.noop_prefilter == 0
}

/// What holds between events: a maintenance batch is under way, or has come to its end, only
/// where the job waits for just that batch, and the job's counts do not exceed what was worked
/// through.
pub open spec fn consistent(c: Core, s: State) -> bool {
    &&& s.completed_batch matches Some(done) ==> completed_ok(s.maintenance, done)
    &&& s.inflight matches Some(b) ==> inflight_ok(s.maintenance, b.batch)
    &&& s.completed_batch is Some ==> (s.inflight matches Some(b) ==> b.batch.owner
        != InflightOwner::Maintenance)
    &&& job_ok(c, s.maintenance, outstanding(s))
}

// ---------------------------------------------------------------------------
// Taking a step
// ---------------------------------------------------------------------------

/// The batch that a job takes over, where it does not have to wait.
enum TakeOver {
    Blocked,
    Go(Option<CompletedBatch>),
}

/// Takes over the batch that a job waits for, where it has come to its end.
fn take_over(state: &mut EventLoopState, waiting: Option<u64>) -> (r: TakeOver)
    ensures
        final(state).inflight == old(state).inflight,
        match r {
            TakeOver::Blocked => is_blocked(old(state)@, waiting) && final(state)@ == old(state)@,
            TakeOver::Go(done) => {
                &&& !is_blocked(old(state)@, waiting)
                &&& done == taken_over(old(state)@, waiting)
                &&& final(state)@ == after_take_over(old(state)@, waiting)
            },
        },
{
    match waiting {
        None => TakeOver::Go(None),
        Some(id) => match state.completed_batch {
            None => TakeOver::Blocked,
            Some(done) => if done.owner != InflightOwner::Maintenance || done.batch_id != id {
                TakeOver::Blocked
            } else {
                state.completed_batch = None;
                TakeOver::Go(Some(done))
            },
        },
    }
}

/// Takes that much from a budget.
fn spend_budget(budget: &mut usize, n: usize)
    ensures
        *final(budget) == spend(*old(budget), n),
{
    *budget = if n <= *budget {
        *budget - n
    } else {
        0
    };
}

/// Takes a batch that was taken over from a budget.
fn spend_batch(budget: &mut usize, done: Option<CompletedBatch>)
    ensures
        *final(budget) == budget_after(*old(budget), done),
{
    if let Some(d) = done {
        let n: usize = if d.result.input == 0 {
            1
        } else {
            d.result.input
        };
        spend_budget(budget, n);
    }
}

/// How many changes go into a chunk.
fn chunk_limit(batch_max: usize, budget: usize) -> (r: usize)
    ensures
        r == chunk_size(batch_max, budget),
        r > 0,
{
    let a: usize = if batch_max == 0 {
        1
    } else {
        batch_max
    };
    let b: usize = if budget == 0 {
        1
    } else {
        budget
    };
    if a < b {
        a
    } else {
        b
    }
}

/// Adds a batch that was taken over to a summary.
fn add_to_summary(summary: CleanupSummary, done: Option<CompletedBatch>) -> (r: CleanupSummary)
    requires
        done matches Some(d) ==> summary.total() + d.result.input <= 0x4_0000_0000_0000_0000
            && d.result.noop + d.result.added + d.result.deleted + d.result.failed
            == d.result.input,
    ensures
        r == summary_after(summary, done),
        done matches Some(d) ==> r.total() <= summary.total() + d.result.input,
{
    match done {
        None => summary,
        Some(d) => CleanupSummary {
            removed: summary.removed + d.result.deleted as u128,
            noop: summary.noop + d.result.noop as u128,
            failed: summary.failed + d.result.failed as u128,
        },
    }
}

/// A step with nothing to report.
fn plain(action: MaintenanceAction) -> (r: StepResult)
    ensures
        r.action == action,
        r.report is None,
{
    StepResult { action, report: None }
}

impl Daemon {
    /// The options that steps depend on.
    pub open spec fn limits(&self) -> Limits {
        Limits { ipv6: self.opts.ipv6, batch_max: self.opts.batch_max }
    }

    /// Whether a step and its outcome agree, and what is to be sent is well formed.
    pub open spec fn step_agrees(
        &self,
        before: &Daemon,
        state: EventLoopState,
        budget: usize,
        r: StepResult,
        spec_step: Step,
    ) -> bool {
        &&& self.same_setup(before)
        &&& self@ == spec_step.core
        &&& state@ == spec_step.state
        &&& budget == spec_step.budget
        &&& r.action@ == spec_step.action
        &&& r.report == spec_step.report
        &&& r.action matches MaintenanceAction::SendBatch(batch) ==> batch.wf(
            before.order,
            before.rule_ctx,
        )
        &&& r.action matches MaintenanceAction::StartDump { family, seq, message } ==> message@
            == rule_dump_message(before.order, low_byte(family), seq)
    }

    /// Prepares the cleanup at the end.
    pub fn prepare_shutdown_cleanup_job(&mut self, state: &mut EventLoopState)
        ensures
            final(self).same_setup(old(self)),
            (final(self)@, final(state)@) == shutdown_prepared(old(self)@, old(state)@),
            final(state).inflight == old(state).inflight,
            ascending(final(self)@.leaving),
            final(self)@.leaving.to_set() == old(self)@.owned,
    {
        let keys = self.owned_ips.sorted_keys();
        self.owned_ips = IpSet::new();
        let none = keys.len() == 0;
        self.resync_scratch.tracked_keys = keys;
        if none {
            state.shutdown_cleanup_done = true;
            state.shutdown_cleanup = CleanupSummary::default();
            state.maintenance = MaintenanceJob::Idle;
            return;
        }
        state.maintenance =
        MaintenanceJob::CleanupTracked {
            offset: 0,
            batch_id: state.batch_id,
            summary: CleanupSummary::default(),
            waiting_batch_id: None,
        };
    }

    /// Takes a step where no job is under way.
    fn step_idle(&mut self, state: &mut EventLoopState, budget: &mut usize, now: u64) -> (r:
        StepResult)
        requires
            old(state).maintenance == MaintenanceJob::Idle,
        ensures
            final(self).step_agrees(
                old(self),
                *final(state),
                *final(budget),
                r,
                idle_step(old(self)@, old(state)@, *old(budget), now),
            ),
            final(state).inflight == old(state).inflight,
    {
        if state.shutdown_requested && state.pending.is_empty() && !state.shutdown_cleanup_done {
            self.prepare_shutdown_cleanup_job(state);
            return plain(MaintenanceAction::Again);
        }
        if state.startup_cleanup_pending {
            if let Some(deadline) = state.startup_cleanup_retry_deadline {
                if (now as u128) < deadline {
                    return plain(MaintenanceAction::Yield);
                }
            }
            state.startup_cleanup_pending = false;
            state.startup_cleanup_retry_deadline = None;
            state.startup_cleanup_started_at = Some(now);
            self.resync_scratch.startup_cleanup_keys = Vec::new();
            state.maintenance =
            MaintenanceJob::StartupCleanupDumpCollect {
                family_idx: 0,
                seq: None,
                batch_id: state.batch_id,
                summary: CleanupSummary::default(),
            };
            return plain(MaintenanceAction::Again);
        }
        if state.resync_requested {
            state.resync_requested = false;
            state.maintenance = MaintenanceJob::ResyncBuild { batch_id: state.batch_id };
            return plain(MaintenanceAction::Again);
        }
        plain(MaintenanceAction::Yield)
    }

    /// Ends the startup cleanup.
    fn end_startup_cleanup(
        state: &mut EventLoopState,
        batch_id: u64,
        summary: CleanupSummary,
        now: u64,
    ) -> (r: StepResult)
        ensures
            final(state)@ == startup_done(old(state)@, batch_id),
            final(state).inflight == old(state).inflight,
            r.action == MaintenanceAction::Again,
            r.report == Some(startup_report(old(state)@, summary, now)),
    {
        let duration: u64 = match state.startup_cleanup_started_at {
            Some(started) => if now >= started {
                now - started
            } else {
                0
            },
            None => 0,
        };
        state.startup_cleanup_retry_count = 0;
        state.startup_cleanup_started_at = None;
        state.resync_requested = true;
        state.batch_id = batch_id;
        state.maintenance = MaintenanceJob::Idle;
        StepResult {
            action: MaintenanceAction::Again,
            report: Some(MaintenanceReport::StartupCleanup { summary, duration }),
        }
    }

    /// Takes a step of listing the rules that an earlier process left behind.
    fn step_collect(
        &mut self,
        state: &mut EventLoopState,
        budget: &mut usize,
        now: u64,
        family_idx: usize,
        seq: Option<u32>,
        batch_id: u64,
        summary: CleanupSummary,
    ) -> (r: StepResult)
        requires
            old(state).maintenance == (MaintenanceJob::StartupCleanupDumpCollect {
                family_idx,
                seq,
                batch_id,
                summary,
            }),
            family_idx <= 2,
        ensures
            final(self).step_agrees(
                old(self),
                *final(state),
                *final(budget),
                r,
                collect_step(
                    old(self)@,
                    old(state)@,
                    *old(budget),
                    old(self).limits(),
                    now,
                    family_idx,
                    seq,
                    batch_id,
                    summary,
                ),
            ),
            final(state).inflight == old(state).inflight,
    {
        spend_budget(budget, 1);
        match next_startup_cleanup_family(family_idx, self.opts.ipv6) {
            None => {
                if self.resync_scratch.startup_cleanup_keys.len() == 0 {
                    return Self::end_startup_cleanup(state, batch_id, summary, now);
                }
                state.maintenance =
                MaintenanceJob::StartupCleanupDumpApply {
                    offset: 0,
                    batch_id,
                    summary,
                    waiting_batch_id: None,
                    next_family_idx: family_idx + 1,
                };
                plain(MaintenanceAction::Again)
            },
            Some((_, family)) => match seq {
                None => {
                    let dump_seq: u32 = next_seq(&mut self.next_seq);
                    let message = build_rule_dump_message(self.order, family, dump_seq);
                    plain(MaintenanceAction::StartDump { family, seq: dump_seq, message })
                },
                Some(q) => plain(MaintenanceAction::PollDump { family, seq: q }),
            },
        }
    }

    /// Sends a chunk, or ends the slice where a batch is under way.
    fn step_send(
        &mut self,
        state: &mut EventLoopState,
        batch_id: u64,
        ops: Vec<RuleOp>,
        job: MaintenanceJob,
        Ghost(budget): Ghost<usize>,
    ) -> (r: StepResult)
        ensures
            final(self).step_agrees(
                old(self),
                *final(state),
                budget,
                r,
                send_step(old(self)@, old(state)@, budget, batch_id, ops_view(ops@), job),
            ),
            final(state).inflight == old(state).inflight,
    {
        let batch = self.start_maintenance_batch(state, batch_id, ops);
        state.maintenance = job;
        match batch {
            Some(batch) => plain(MaintenanceAction::SendBatch(batch)),
            None => plain(MaintenanceAction::Yield),
        }
    }

    /// Takes a step of deleting the rules that an earlier process left behind.
    fn step_startup_apply(
        &mut self,
        state: &mut EventLoopState,
        budget: &mut usize,
        now: u64,
        offset: usize,
        batch_id: u64,
        summary: CleanupSummary,
        waiting: Option<u64>,
        next_family_idx: usize,
    ) -> (r: StepResult)
        requires
            old(state).maintenance == (MaintenanceJob::StartupCleanupDumpApply {
                offset,
                batch_id,
                summary,
                waiting_batch_id: waiting,
                next_family_idx,
            }),
            is_blocked(old(state)@, waiting) || consistent(old(self)@, old(state)@),
        ensures
            final(self).step_agrees(
                old(self),
                *final(state),
                *final(budget),
                r,
                startup_apply_step(
                    old(self)@,
                    old(state)@,
                    *old(budget),
                    old(self).limits(),
                    now,
                    offset,
                    batch_id,
                    summary,
                    waiting,
                    next_family_idx,
                ),
            ),
            final(state).inflight == old(state).inflight,
    {
        let done = match take_over(state, waiting) {
            TakeOver::Blocked => return plain(MaintenanceAction::Yield),
            TakeOver::Go(done) => done,
        };
        let summary = add_to_summary(summary, done);
        spend_batch(budget, done);
        let max: usize = chunk_limit(self.opts.batch_max, *budget);
        let mut offset: usize = offset;
        let mut chunk: Vec<RuleOp> = Vec::new();
        assert(ops_view(chunk@) =~= Seq::<KeyOp>::empty());
        fill_tracked_cleanup_chunk(
            self.resync_scratch.startup_cleanup_keys.as_slice(),
            &mut offset,
            max,
            &mut chunk,
        );
        assert(ops_view(chunk@) =~= cleanup_chunk(
            old(self)@.startup,
            old(state).maintenance->StartupCleanupDumpApply_offset as int,
            max as int,
        ));
        assert(ops_view(chunk@).len() == chunk@.len());
        if chunk.len() == 0 {
            self.resync_scratch.startup_cleanup_keys = Vec::new();
            if next_startup_cleanup_family(next_family_idx, self.opts.ipv6).is_some() {
                state.batch_id = batch_id;
                state.maintenance =
                MaintenanceJob::StartupCleanupDumpCollect {
                    family_idx: next_family_idx,
                    seq: None,
                    batch_id,
                    summary,
                };
                return plain(MaintenanceAction::Again);
            }
            return Self::end_startup_cleanup(state, batch_id, summary, now);
        }
        let batch_id: u64 = next_batch_id(batch_id);
        self.step_send(
            state,
            batch_id,
            chunk,
            MaintenanceJob::StartupCleanupDumpApply {
                offset,
                batch_id,
                summary,
                waiting_batch_id: None,
                next_family_idx,
            },
            Ghost(*budget),
        )
    }

    /// Takes a step of making the rules agree with the addresses of the interfaces.
    fn step_resync_apply(
        &mut self,
        state: &mut EventLoopState,
        budget: &mut usize,
        target_idx: usize,
        current_idx: usize,
        batch_id: u64,
        metrics: ResyncResult,
        waiting: Option<u64>,
    ) -> (r: StepResult)
        requires
            old(state).maintenance == (MaintenanceJob::ResyncApply {
                target_idx,
                current_idx,
                batch_id,
                metrics,
                waiting_batch_id: waiting,
            }),
            is_blocked(old(state)@, waiting) || consistent(old(self)@, old(state)@),
        ensures
            final(self).step_agrees(
                old(self),
                *final(state),
                *final(budget),
                r,
                resync_apply_step(
                    old(self)@,
                    old(state)@,
                    *old(budget),
                    old(self).limits(),
                    target_idx,
                    current_idx,
                    batch_id,
                    metrics,
                    waiting,
                ),
            ),
            final(state).inflight == old(state).inflight,
    {
        let done = match take_over(state, waiting) {
            TakeOver::Blocked => return plain(MaintenanceAction::Yield),
            TakeOver::Go(done) => done,
        };
        let mut metrics = metrics;
        if let Some(d) = done {
            metrics.add = metrics.add + d.result.added as u128;
            metrics.del = metrics.del + d.result.deleted as u128;
            metrics.failed = metrics.failed + d.result.failed as u128;
        }
        spend_batch(budget, done);
        let max: usize = chunk_limit(self.opts.batch_max, *budget);
        let mut target_idx: usize = target_idx;
        let mut current_idx: usize = current_idx;
        let mut chunk: Vec<RuleOp> = Vec::new();
        let ghost d = diff(
            self@.target,
            self@.current,
            target_idx as int,
            current_idx as int,
            max as int,
        );
        assert(ops_view(chunk@) =~= Seq::<KeyOp>::empty());
        fill_resync_chunk(
            self.resync_scratch.target_keys.as_slice(),
            self.resync_scratch.current_keys.as_slice(),
            &mut target_idx,
            &mut current_idx,
            max,
            &mut chunk,
        );
        assert(ops_view(chunk@) =~= d.ops);
        assert(ops_view(chunk@).len() == chunk@.len());
        if chunk.len() == 0 {
            state.resync_compensate_pending = false;
            state.batch_id = batch_id;
            state.maintenance = MaintenanceJob::Idle;
            return StepResult {
                action: MaintenanceAction::Again,
                report: Some(MaintenanceReport::Resync(metrics)),
            };
        }
        let batch_id: u64 = next_batch_id(batch_id);
        self.step_send(
            state,
            batch_id,
            chunk,
            MaintenanceJob::ResyncApply {
                target_idx,
                current_idx,
                batch_id,
                metrics,
                waiting_batch_id: None,
            },
            Ghost(*budget),
        )
    }

    /// Takes a step of deleting the rules of this process.
    fn step_cleanup(
        &mut self,
        state: &mut EventLoopState,
        budget: &mut usize,
        offset: usize,
        batch_id: u64,
        summary: CleanupSummary,
        waiting: Option<u64>,
    ) -> (r: StepResult)
        requires
            old(state).maintenance == (MaintenanceJob::CleanupTracked {
                offset,
                batch_id,
                summary,
                waiting_batch_id: waiting,
            }),
            is_blocked(old(state)@, waiting) || consistent(old(self)@, old(state)@),
        ensures
            final(self).step_agrees(
                old(self),
                *final(state),
                *final(budget),
                r,
                cleanup_step(
                    old(self)@,
                    old(state)@,
                    *old(budget),
                    old(self).limits(),
                    offset,
                    batch_id,
                    summary,
                    waiting,
                ),
            ),
            final(state).inflight == old(state).inflight,
    {
        let done = match take_over(state, waiting) {
            TakeOver::Blocked => return plain(MaintenanceAction::Yield),
            TakeOver::Go(done) => done,
        };
        let summary = add_to_summary(summary, done);
        spend_batch(budget, done);
        let max: usize = chunk_limit(self.opts.batch_max, *budget);
        let mut offset: usize = offset;
        let mut chunk: Vec<RuleOp> = Vec::new();
        assert(ops_view(chunk@) =~= Seq::<KeyOp>::empty());
        fill_tracked_cleanup_chunk(
            self.resync_scratch.tracked_keys.as_slice(),
            &mut offset,
            max,
            &mut chunk,
        );
        assert(ops_view(chunk@) =~= cleanup_chunk(
            old(self)@.leaving,
            old(state).maintenance->CleanupTracked_offset as int,
            max as int,
        ));
        assert(ops_view(chunk@).len() == chunk@.len());
        if chunk.len() == 0 {
            state.shutdown_cleanup_done = true;
            state.shutdown_cleanup = summary;
            state.batch_id = batch_id;
            state.maintenance = MaintenanceJob::Idle;
            return StepResult {
                action: MaintenanceAction::Again,
                report: Some(MaintenanceReport::Cleanup(summary)),
            };
        }
        let batch_id: u64 = next_batch_id(batch_id);
        self.step_send(
            state,
            batch_id,
            chunk,
            MaintenanceJob::CleanupTracked {
                offset,
                batch_id,
                summary,
                waiting_batch_id: None,
            },
            Ghost(*budget),
        )
    }

    /// Takes one step of a maintenance slice. A job whose batch has not come to its end changes
    /// nothing and ends the slice; else the daemon has to be consistent.
    pub fn maintenance_step(
        &mut self,
        state: &mut EventLoopState,
        budget: &mut usize,
        now: u64,
    ) -> (r: StepResult)
        requires
            is_blocked(old(state)@, waiting_for(old(state)@.maintenance)) || consistent(
                old(self)@,
                old(state)@,
            ),
        ensures
            final(self).step_agrees(
                old(self),
                *final(state),
                *final(budget),
                r,
                step(old(self)@, old(state)@, *old(budget), old(self).limits(), now),
            ),
            final(state).inflight == old(state).inflight,
    {
        match state.maintenance {
            MaintenanceJob::Idle => self.step_idle(state, budget, now),
            MaintenanceJob::StartupCleanupDumpCollect { family_idx, seq, batch_id, summary } => {
                self.step_collect(state, budget, now, family_idx, seq, batch_id, summary)
            },
            MaintenanceJob::StartupCleanupDumpApply {
                offset,
                batch_id,
                summary,
                waiting_batch_id,
                next_family_idx,
            } => self.step_startup_apply(
                state,
                budget,
                now,
                offset,
                batch_id,
                summary,
                waiting_batch_id,
                next_family_idx,
            ),
            MaintenanceJob::ResyncBuild { batch_id: _ } => {
                spend_budget(budget, 1);
                plain(MaintenanceAction::Snapshot)
            },
            MaintenanceJob::ResyncApply {
                target_idx,
                current_idx,
                batch_id,
                metrics,
                waiting_batch_id,
            } => self.step_resync_apply(
                state,
                budget,
                target_idx,
                current_idx,
                batch_id,
                metrics,
                waiting_batch_id,
            ),
            MaintenanceJob::CleanupTracked { offset, batch_id, summary, waiting_batch_id } => {
                self.step_cleanup(state, budget, offset, batch_id, summary, waiting_batch_id)
            },
        }
    }
}

// ---------------------------------------------------------------------------
// What came of a step
// ---------------------------------------------------------------------------

/// The daemon and the state after a failure of the startup cleanup: it is tried again after a
/// while, up to its limit, and a resynchronisation is done either way.
pub open spec fn retry_scheduled(c: Core, s: State, now: u64) -> (Core, State) {
    let count = if s.startup_cleanup_retry_count < u8::MAX {
        (s.startup_cleanup_retry_count + 1) as u8
    } else {
        u8::MAX
    };
    let retry = count <= STARTUP_CLEANUP_RETRY_LIMIT;
    (
        Core { startup: Seq::empty(), ..c },
        State {
            startup_cleanup_retry_count: count,
            startup_cleanup_started_at: None,
            maintenance: MaintenanceJob::Idle,
            resync_requested: true,
            startup_cleanup_pending: retry,
            startup_cleanup_retry_deadline: if retry {
                Some((now + STARTUP_CLEANUP_RETRY_DELAY) as u128)
            } else {
                None
            },
            ..s
        },
    )
}

/// What a failure of the startup cleanup is logged with.
#[derive(Debug, Clone, Copy, PartialEq, Eq, Structural)]
pub struct RetryReport {
    pub retry: bool,
    pub attempt: u8,
}

/// What became of reading a rule dump.
pub struct DumpResult {
    pub action: MaintenanceAction,
    /// The error that the startup cleanup failed with, if it did.
    pub failed: Option<(RetryReport, AppError)>,
}

/// The job with the batch that it waits for.
pub open spec fn with_waiting(job: MaintenanceJob, id: u64) -> MaintenanceJob {
    match job {
        MaintenanceJob::StartupCleanupDumpApply {
            offset,
            batch_id,
            summary,
            next_family_idx,
            ..
        } => MaintenanceJob::StartupCleanupDumpApply {
            offset,
            batch_id,
            summary,
            waiting_batch_id: Some(id),
            next_family_idx,
        },
        MaintenanceJob::ResyncApply { target_idx, current_idx, batch_id, metrics, .. } =>
            MaintenanceJob::ResyncApply {
                target_idx,
                current_idx,
                batch_id,
                metrics,
                waiting_batch_id: Some(id),
            },
        MaintenanceJob::CleanupTracked { offset, batch_id, summary, .. } =>
            MaintenanceJob::CleanupTracked {
                offset,
                batch_id,
                summary,
                waiting_batch_id: Some(id),
            },
        _ => job,
    }
}

/// The state after a maintenance batch was sent: the job waits for it.
pub open spec fn maintenance_sent(s: State, b: Batch, now: u64) -> State {
    State {
        inflight: Some(sent(b, now)),
        maintenance: with_waiting(s.maintenance, b.batch_id),
        ..s
    }
}

/// The daemon and the state after a maintenance batch could not be sent. Only the startup
/// cleanup survives that: it is tried again.
pub open spec fn send_failed(c: Core, s: State, now: u64) -> (Core, State) {
    match s.maintenance {
        MaintenanceJob::StartupCleanupDumpApply { .. } => retry_scheduled(c, s, now),
        _ => (c, State { maintenance: MaintenanceJob::Idle, ..s }),
    }
}

/// The state after a rule dump was asked for.
pub open spec fn dump_begun(c: Core, s: State, q: u32) -> (Core, State) {
    (
        Core { dump_seen: Set::empty(), ..c },
        match s.maintenance {
            MaintenanceJob::StartupCleanupDumpCollect { family_idx, batch_id, summary, .. } =>
                State {
                    maintenance: MaintenanceJob::StartupCleanupDumpCollect {
                        family_idx,
                        seq: Some(q),
                        batch_id,
                        summary,
                    },
                    ..s
                },
            _ => s,
        },
    )
}

/// The state after the last packet of a rule dump: the rules that were found are deleted, or the
/// next family has its turn.
pub open spec fn dump_ended(
    c: Core,
    s: State,
    family_idx: usize,
    batch_id: u64,
    summary: CleanupSummary,
) -> State {
    if c.startup.len() == 0 {
        State {
            maintenance: MaintenanceJob::StartupCleanupDumpCollect {
                family_idx: (family_idx + 1) as usize,
                seq: None,
                batch_id,
                summary,
            },
            ..s
        }
    } else {
        State {
            maintenance: MaintenanceJob::StartupCleanupDumpApply {
                offset: 0,
                batch_id,
                summary,
                waiting_batch_id: None,
                next_family_idx: (family_idx + 1) as usize,
            },
            ..s
        }
    }
}

/// The daemon and the state after a snapshot of the addresses of the interfaces.
pub open spec fn plan_built(
    c: Core,
    s: State,
    batch_id: u64,
    dumped: Seq<IpKey>,
) -> (Core, State) {
    let target = sorted(dumped.to_set());
    let current = sorted(c.owned);
    (
        Core { target, current, ..c },
        State {
            maintenance: MaintenanceJob::ResyncApply {
                target_idx: 0,
                current_idx: 0,
                batch_id,
                metrics: ResyncResult {
                    target: target.len() as usize,
                    current: current.len() as usize,
                    add: 0,
                    del: 0,
                    failed: 0,
                },
                waiting_batch_id: None,
            },
            ..s
        },
    )
}

/// Takes note that a maintenance batch was sent.
pub fn maintenance_batch_sent(state: &mut EventLoopState, batch: OutboundBatch, now: u64)
    requires
        batch.input_count == batch.noop_prefilter + batch.ops@.len(),
    ensures
        final(state)@ == maintenance_sent(old(state)@, batch@, now),
        final(state).inflight matches Some(b) && b.wf(),
{
    let id: u64 = batch.batch_id;
    state.maintenance =
    match state.maintenance {
        MaintenanceJob::StartupCleanupDumpApply {
            offset,
            batch_id,
            summary,
            waiting_batch_id: _,
            next_family_idx,
        } => MaintenanceJob::StartupCleanupDumpApply {
            offset,
            batch_id,
            summary,
            waiting_batch_id: Some(id),
            next_family_idx,
        },
        MaintenanceJob::ResyncApply {
            target_idx,
            current_idx,
            batch_id,
            metrics,
            waiting_batch_id: _,
        } => MaintenanceJob::ResyncApply {
            target_idx,
            current_idx,
            batch_id,
            metrics,
            waiting_batch_id: Some(id),
        },
        MaintenanceJob::CleanupTracked { offset, batch_id, summary, waiting_batch_id: _ } =>
            MaintenanceJob::CleanupTracked {
                offset,
                batch_id,
                summary,
                waiting_batch_id: Some(id),
            },
        job => job,
    };
    batch_sent(state, batch, now);
}

/// Takes note that the addresses of the interfaces could not be listed: the slice is over, and
/// the resynchronisation is tried again.
pub fn snapshot_failed(state: &mut EventLoopState, budget: &mut usize)
    ensures
        final(state)@ == (State {
            resync_requested: true,
            maintenance: MaintenanceJob::Idle,
            ..old(state)@
        }),
        final(state).inflight == old(state).inflight,
        *final(budget) == 0,
{
    state.resync_requested = true;
    state.maintenance = MaintenanceJob::Idle;
    *budget = 0;
}

impl Daemon {
    /// Plans the startup cleanup anew after a failure, up to its limit.
    pub fn schedule_startup_cleanup_retry(&mut self, state: &mut EventLoopState, now: u64) -> (r:
        RetryReport)
        ensures
            final(self).same_setup(old(self)),
            (final(self)@, final(state)@) == retry_scheduled(old(self)@, old(state)@, now),
            final(state).inflight == old(state).inflight,
            r == (RetryReport {
                retry: final(state)@.startup_cleanup_pending,
                attempt: final(state)@.startup_cleanup_retry_count,
            }),
    {
        state.startup_cleanup_retry_count = state.startup_cleanup_retry_count.saturating_add(1);
        let retry = state.startup_cleanup_retry_count <= STARTUP_CLEANUP_RETRY_LIMIT;
        self.resync_scratch.startup_cleanup_keys = Vec::new();
        state.startup_cleanup_started_at = None;
        state.maintenance = MaintenanceJob::Idle;
        state.resync_requested = true;
        if retry {
            state.startup_cleanup_pending = true;
            state.startup_cleanup_retry_deadline =
            Some(now as u128 + STARTUP_CLEANUP_RETRY_DELAY as u128);
        } else {
            state.startup_cleanup_pending = false;
            state.startup_cleanup_retry_deadline = None;
        }
        RetryReport { retry, attempt: state.startup_cleanup_retry_count }
    }

    /// Takes note that a rule dump was asked for.
    pub fn dump_started(&mut self, state: &mut EventLoopState, dump_seq: u32)
        ensures
            final(self).same_setup(old(self)),
            (final(self)@, final(state)@) == dump_begun(old(self)@, old(state)@, dump_seq),
            final(state).inflight == old(state).inflight,
    {
        self.dump_seen = IpSet::new();
        if let MaintenanceJob::StartupCleanupDumpCollect { family_idx, seq: _, batch_id, summary } =
            state.maintenance {
            state.maintenance =
            MaintenanceJob::StartupCleanupDumpCollect {
                family_idx,
                seq: Some(dump_seq),
                batch_id,
                summary,
            };
        }
    }

    /// Takes the first `count` packets into the rule dump that is being read.
    pub fn dump_received(
        &mut self,
        state: &mut EventLoopState,
        ring: &MmsgRxRing,
        count: usize,
        now: u64,
    ) -> (r: DumpResult)
        requires
            ring.wf(),
            count <= ring@.len(),
            old(state)@.maintenance matches MaintenanceJob::StartupCleanupDumpCollect {
                family_idx,
                seq: Some(_),
                ..
            } && family_idx <= 1,
        ensures
            final(self).same_setup(old(self)),
            final(state).inflight == old(state).inflight,
            old(state)@.maintenance matches MaintenanceJob::StartupCleanupDumpCollect {
                family_idx,
                seq: Some(q),
                batch_id,
                summary,
            } && ({
                let dump = dump_of(
                    old(self).order,
                    packet_items(old(self).order, ring@.subrange(0, count as int)),
                    q,
                );
                let t = cleanup_targets(
                    old(self).order,
                    dump.messages,
                    old(self).rule_ctx,
                    family_at(family_idx as int) as int,
                    old(self)@.dump_seen,
                );
                let c = Core {
                    dump_seen: t.seen,
                    startup: old(self)@.startup + t.keys,
                    ..old(self)@
                };
                if t.error is Some || dump.error is Some {
                    &&& (final(self)@, final(state)@) == retry_scheduled(c, old(state)@, now)
                    &&& r.action@ == Action::Again
                    &&& r.failed matches Some((report, e)) && report == (RetryReport {
                        retry: final(state)@.startup_cleanup_pending,
                        attempt: final(state)@.startup_cleanup_retry_count,
                    }) && Some(e@) == (if t.error is Some {
                        t.error
                    } else {
                        dump.error
                    })
                } else if dump.done {
                    &&& final(self)@ == c
                    &&& final(state)@ == dump_ended(c, old(state)@, family_idx, batch_id, summary)
                    &&& r.action@ == Action::Again
                    &&& r.failed is None
                } else {
                    &&& final(self)@ == c
                    &&& final(state)@ == old(state)@
                    &&& r.action@ == Action::Yield
                    &&& r.failed is None
                }
            }),
            old(state)@.maintenance matches MaintenanceJob::StartupCleanupDumpCollect {
                family_idx,
                seq: Some(q),
                ..
            } && ({
                let dump = dump_of(
                    old(self).order,
                    packet_items(old(self).order, ring@.subrange(0, count as int)),
                    q,
                );
                let t = cleanup_targets(
                    old(self).order,
                    dump.messages,
                    old(self).rule_ctx,
                    if family_idx == 0 {
                        2
                    } else {
                        10
                    },
                    old(self)@.dump_seen,
                );
                &&& r.failed is None <==> dump.error is None && t.error is None
                &&& r.failed is None ==> final(self)@.startup == old(self)@.startup + t.keys
                    && final(self)@.dump_seen == t.seen && final(self)@.owned == old(self)@.owned
                &&& r.failed is None ==> (r.action@ == Action::Again <==> dump.done)
                &&& r.failed is Some ==> final(self)@.startup.len() == 0
            }),
    {
        match state.maintenance {
            MaintenanceJob::StartupCleanupDumpCollect {
                family_idx,
                seq: Some(q),
                batch_id,
                summary,
            } => {
                let family: i32 = if family_idx == 0 {
                    AF_INET
                } else {
                    AF_INET6
                };
                let chunk = recv_step(self.order, ring, count, q);
                let polled = poll_cleanup_targets(
                    self.order,
                    chunk,
                    self.rule_ctx,
                    family,
                    &mut self.dump_seen,
                    &mut self.resync_scratch.startup_cleanup_keys,
                );
                match polled {
                    Err(e) => {
                        let report = self.schedule_startup_cleanup_retry(state, now);
                        DumpResult {
                            action: MaintenanceAction::Again,
                            failed: Some((report, e)),
                        }
                    },
                    Ok(CleanupDumpPoll::Pending) => DumpResult {
                        action: MaintenanceAction::Yield,
                        failed: None,
                    },
                    Ok(CleanupDumpPoll::Done) => {
                        if self.resync_scratch.startup_cleanup_keys.len() == 0 {
                            state.maintenance =
                            MaintenanceJob::StartupCleanupDumpCollect {
                                family_idx: family_idx + 1,
                                seq: None,
                                batch_id,
                                summary,
                            };
                        } else {
                            state.maintenance =
                            MaintenanceJob::StartupCleanupDumpApply {
                                offset: 0,
                                batch_id,
                                summary,
                                waiting_batch_id: None,
                                next_family_idx: family_idx + 1,
                            };
                        }
                        DumpResult { action: MaintenanceAction::Again, failed: None }
                    },
                }
            },
            _ => DumpResult { action: MaintenanceAction::Yield, failed: None },
        }
    }

    /// Plans a resynchronisation from the addresses that a snapshot brought.
    pub fn build_resync_plan(&mut self, state: &mut EventLoopState, dumped: Vec<IpKey>)
        requires
            old(state)@.maintenance is ResyncBuild,
        ensures
            final(self).same_setup(old(self)),
            (final(self)@, final(state)@) == plan_built(
                old(self)@,
                old(state)@,
                old(state)@.maintenance->ResyncBuild_batch_id,
                dumped@,
            ),
            final(state).inflight == old(state).inflight,
            ascending(final(self)@.target),
            ascending(final(self)@.current),
            final(self)@.target.to_set() == dumped@.to_set(),
            final(self)@.current.to_set() == old(self)@.owned,
    {
        let mut target = dumped;
        sort_dedup(&mut target);
        let current = self.owned_ips.sorted_keys();
        let metrics = ResyncResult {
            target: target.len(),
            current: current.len(),
            add: 0,
            del: 0,
            failed: 0,
        };
        self.resync_scratch.target_keys = target;
        self.resync_scratch.current_keys = current;
        if let MaintenanceJob::ResyncBuild { batch_id } = state.maintenance {
            state.maintenance =
            MaintenanceJob::ResyncApply {
                target_idx: 0,
                current_idx: 0,
                batch_id,
                metrics,
                waiting_batch_id: None,
            };
        }
    }

    /// Takes note that a maintenance batch could not be sent. Where the startup cleanup goes on,
    /// tells how; else the daemon has to give up.
    pub fn maintenance_send_failed(&mut self, state: &mut EventLoopState, now: u64) -> (r: Option<
        RetryReport,
    >)
        ensures
            final(self).same_setup(old(self)),
            (final(self)@, final(state)@) == send_failed(old(self)@, old(state)@, now),
            final(state).inflight == old(state).inflight,
            r is Some <==> old(state)@.maintenance is StartupCleanupDumpApply,
            r matches Some(report) ==> report == (RetryReport {
                retry: final(state)@.startup_cleanup_pending,
                attempt: final(state)@.startup_cleanup_retry_count,
            }),
    {
        match state.maintenance {
            MaintenanceJob::StartupCleanupDumpApply { .. } => Some(
                self.schedule_startup_cleanup_retry(state, now),
            ),
            _ => {
                state.maintenance = MaintenanceJob::Idle;
                None
            },
        }
    }
}

} // verus!
