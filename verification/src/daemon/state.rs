//! What the daemon keeps between events.
use crate::bytes::ByteOrder;
use crate::config::Options;
use crate::ip_key::{key_of, IpKey};
use crate::ip_set::{IpSet, PendingMap};
use crate::netlink::addr::{listed, IgnoreFilters};
use crate::netlink::rule::{
    batch_messages, byte_views, new_rule_context, AckTracker, RuleAction, RuleContext, RuleOp,
    Tracker,
};
use vstd::prelude::*;

verus! {

/// Between two log lines of one kind, in nanoseconds.
pub const BATCH_NOOP_LOG_INTERVAL: u64 = 5_000_000_000;
pub const EVENT_DROP_LOG_INTERVAL: u64 = 5_000_000_000;

pub const MAINTENANCE_OP_BUDGET: usize = 256;
pub const MAINTENANCE_TIME_BUDGET: u64 = 8_000_000;
pub const STARTUP_CLEANUP_RETRY_LIMIT: u8 = 3;
pub const STARTUP_CLEANUP_RETRY_DELAY: u64 = 500_000_000;
pub const ROUTE_DRAIN_MIN_BUDGET: usize = 64;
pub const ROUTE_DRAIN_DEFAULT_BUDGET: usize = 256;
pub const ROUTE_DRAIN_MAX_BUDGET: usize = 1024;
pub const ROUTE_RING_MIN_SLOTS: usize = 8;
pub const ROUTE_RING_MAX_SLOTS: usize = 32;

pub const EPOLL_TAG_ROUTE: u64 = 1;
pub const EPOLL_TAG_SIGNAL: u64 = 2;
pub const EPOLL_TAG_TIMER: u64 = 3;
pub const EPOLL_TAG_RULE: u64 = 4;

/// Where the rules to clean up come from.
#[derive(Debug, Clone, Copy, PartialEq, Eq, Structural)]
pub enum CleanupSource {
    /// The rules that this process added.
    Owned,
    /// The rules that the kernel lists.
    Dump,
}

/// The word for where the rules to clean up come from.
pub fn cleanup_source_name(source: CleanupSource) -> (r: &'static str)
    ensures
        r@ == match source {
            CleanupSource::Owned => "tracked"@,
            CleanupSource::Dump => "dump"@,
        },
{
    match source {
        CleanupSource::Owned => "tracked",
        CleanupSource::Dump => "dump",
    }
}

/// The word for what is done to a rule.
pub open spec fn action_name(action: RuleAction) -> Seq<char> {
    match action {
        RuleAction::Delete => "delete"@,
        RuleAction::Add => "add"@,
    }
}

/// The word for what is done to a rule.
pub fn rule_action_name(action: RuleAction) -> (r: &'static str)
    ensures
        r@ == action_name(action),
{
    match action {
        RuleAction::Delete => "delete",
        RuleAction::Add => "add",
    }
}

// ---------------------------------------------------------------------------
// Batches
// ---------------------------------------------------------------------------

/// A change of the rule for the address with a key.
pub struct KeyOp {
    pub key: IpKey,
    pub action: RuleAction,
}

/// A change with its address as a key.
pub open spec fn op_view(op: RuleOp) -> KeyOp {
    KeyOp { key: key_of(op.addr), action: op.action }
}

/// Changes with their addresses as keys.
pub open spec fn ops_view(ops: Seq<RuleOp>) -> Seq<KeyOp> {
    Seq::new(ops.len(), |i: int| op_view(ops[i]))
}

/// What became of the changes of a batch.
#[derive(Debug, Clone, Copy, PartialEq, Eq, Structural)]
pub struct ApplyResult {
    pub input: usize,
    pub noop: usize,
    pub added: usize,
    pub deleted: usize,
    pub failed: usize,
    /// How long the batch took, in nanoseconds.
    pub duration: u64,
}

/// Who started a batch.
#[derive(Debug, Clone, Copy, PartialEq, Eq, Structural)]
pub enum InflightOwner {
    Pending,
    Maintenance,
}

/// A batch that is ready to be sent.
pub struct OutboundBatch {
    pub batch_id: u64,
    pub first_seq: u32,
    pub messages: Vec<Vec<u8>>,
    pub ops: Vec<RuleOp>,
    pub input_count: usize,
    pub noop_prefilter: usize,
    pub owner: InflightOwner,
}

/// An `OutboundBatch` without its messages, its addresses as keys.
pub struct Batch {
    pub batch_id: u64,
    pub first_seq: u32,
    pub ops: Seq<KeyOp>,
    pub input_count: int,
    pub noop_prefilter: int,
    pub owner: InflightOwner,
}

impl View for OutboundBatch {
    type V = Batch;

    open spec fn view(&self) -> Batch {
        Batch {
            batch_id: self.batch_id,
            first_seq: self.first_seq,
            ops: ops_view(self.ops@),
            input_count: self.input_count as int,
            noop_prefilter: self.noop_prefilter as int,
            owner: self.owner,
        }
    }
}

impl OutboundBatch {
    /// The messages are those for the changes, of which there is at least one, and every change
    /// that was put in is accounted for.
    pub open spec fn wf(&self, order: ByteOrder, ctx: RuleContext) -> bool {
        &&& self.ops@.len() > 0
        &&& self.input_count == self.noop_prefilter + self.ops@.len()
        &&& byte_views(self.messages@) == batch_messages(order, ctx, self.ops@, self.first_seq)
    }
}

/// A batch whose acknowledgements are being waited for.
pub struct InflightBatch {
    pub batch_id: u64,
    pub started_at: u64,
    pub ack_deadline: u128,
    pub input_count: usize,
    pub noop_prefilter: usize,
    pub first_seq: u32,
    pub tracker: AckTracker,
    pub owner: InflightOwner,
    pub ops: Vec<RuleOp>,
}

/// An `InflightBatch` with its addresses as keys.
pub struct Inflight {
    pub batch: Batch,
    pub started_at: u64,
    pub ack_deadline: u128,
    pub tracker: Tracker,
}

impl View for InflightBatch {
    type V = Inflight;

    open spec fn view(&self) -> Inflight {
        Inflight {
            batch: Batch {
                batch_id: self.batch_id,
                first_seq: self.first_seq,
                ops: ops_view(self.ops@),
                input_count: self.input_count as int,
                noop_prefilter: self.noop_prefilter as int,
                owner: self.owner,
            },
            started_at: self.started_at,
            ack_deadline: self.ack_deadline,
            tracker: self.tracker@,
        }
    }
}

impl InflightBatch {
    /// Every change has an entry in the tracker, and every change that was put in is accounted
    /// for.
    pub open spec fn wf(&self) -> bool {
        &&& self.tracker.wf()
        &&& self.tracker.seen@.len() == self.ops@.len()
        &&& self.input_count == self.noop_prefilter + self.ops@.len()
    }
}

/// A maintenance batch whose acknowledgements have come, or were given up.
#[derive(Debug, Clone, Copy, PartialEq, Eq, Structural)]
pub struct CompletedBatch {
    pub batch_id: u64,
    pub result: ApplyResult,
    pub owner: InflightOwner,
}

// ---------------------------------------------------------------------------
// Maintenance
// ---------------------------------------------------------------------------

/// What became of the rules to clean up.
#[derive(Debug, Clone, Copy, PartialEq, Eq, Structural)]
pub struct CleanupSummary {
    pub removed: u128,
    pub noop: u128,
    pub failed: u128,
}

impl CleanupSummary {
    /// How many rules are accounted for.
    pub open spec fn total(self) -> int {
        self.removed + self.noop + self.failed
    }
}

/// The summary before any rule.
pub open spec fn no_summary() -> CleanupSummary {
    CleanupSummary { removed: 0, noop: 0, failed: 0 }
}

impl Default for CleanupSummary {
    fn default() -> (r: Self)
        ensures
            r == no_summary(),
    {
        CleanupSummary { removed: 0, noop: 0, failed: 0 }
    }
}

/// What a resynchronisation found and did.
#[derive(Debug, Clone, Copy, PartialEq, Eq, Structural)]
pub struct ResyncResult {
    pub target: usize,
    pub current: usize,
    pub add: u128,
    pub del: u128,
    pub failed: u128,
}

/// The work that is done between events.
#[derive(Debug, Clone, Copy, PartialEq, Eq, Structural)]
pub enum MaintenanceJob {
    Idle,
    /// Listing the rules that an earlier process left behind.
    StartupCleanupDumpCollect {
        family_idx: usize,
        seq: Option<u32>,
        batch_id: u64,
        summary: CleanupSummary,
    },
    /// Deleting them.
    StartupCleanupDumpApply {
        offset: usize,
        batch_id: u64,
        summary: CleanupSummary,
        waiting_batch_id: Option<u64>,
        next_family_idx: usize,
    },
    /// Listing the addresses of the interfaces.
    ResyncBuild { batch_id: u64 },
    /// Making the rules agree with them.
    ResyncApply {
        target_idx: usize,
        current_idx: usize,
        batch_id: u64,
        metrics: ResyncResult,
        waiting_batch_id: Option<u64>,
    },
    /// Deleting the rules of this process.
    CleanupTracked {
        offset: usize,
        batch_id: u64,
        summary: CleanupSummary,
        waiting_batch_id: Option<u64>,
    },
}

/// The batch that a job waits for.
pub open spec fn waiting_for(job: MaintenanceJob) -> Option<u64> {
    match job {
        MaintenanceJob::StartupCleanupDumpApply { waiting_batch_id, .. } => waiting_batch_id,
        MaintenanceJob::ResyncApply { waiting_batch_id, .. } => waiting_batch_id,
        MaintenanceJob::CleanupTracked { waiting_batch_id, .. } => waiting_batch_id,
        _ => None,
    }
}

/// Lists of keys that maintenance works through.
pub struct ResyncScratch {
    pub target_keys: Vec<IpKey>,
    pub current_keys: Vec<IpKey>,
    pub tracked_keys: Vec<IpKey>,
    pub startup_cleanup_keys: Vec<IpKey>,
}

// ---------------------------------------------------------------------------
// The budget for route events
// ---------------------------------------------------------------------------

/// How many packets are read at one go, and how the last rounds went.
#[derive(Debug, Clone, Copy, PartialEq, Eq, Structural)]
pub struct RouteBudgetState {
    pub current: usize,
    pub full_streak: u8,
    pub low_streak: u8,
}

/// The budget at the start.
pub open spec fn initial_budget() -> RouteBudgetState {
    RouteBudgetState { current: ROUTE_DRAIN_DEFAULT_BUDGET, full_streak: 0, low_streak: 0 }
}

impl Default for RouteBudgetState {
    fn default() -> (r: Self)
        ensures
            r == initial_budget(),
    {
        RouteBudgetState { current: ROUTE_DRAIN_DEFAULT_BUDGET, full_streak: 0, low_streak: 0 }
    }
}

/// Whether a round that did not use its budget up used at most a quarter of it.
pub open spec fn is_low(b: RouteBudgetState, processed: usize) -> bool {
    processed <= b.current / 4 || processed <= 1
}

/// The budget after a round: doubled after two full rounds in a row, halved after eight low
/// ones in a row.
pub open spec fn next_budget(
    b: RouteBudgetState,
    processed: usize,
    budget_hit: bool,
) -> RouteBudgetState {
    if budget_hit {
        if b.full_streak >= 1 {
            RouteBudgetState {
                current: if b.current * 2 < ROUTE_DRAIN_MAX_BUDGET {
                    (b.current * 2) as usize
                } else {
                    ROUTE_DRAIN_MAX_BUDGET
                },
                full_streak: 0,
                low_streak: 0,
            }
        } else {
            RouteBudgetState { full_streak: 1, low_streak: 0, ..b }
        }
    } else if is_low(b, processed) {
        if b.low_streak >= 7 {
            RouteBudgetState {
                current: if b.current / 2 > ROUTE_DRAIN_MIN_BUDGET {
                    b.current / 2
                } else {
                    ROUTE_DRAIN_MIN_BUDGET
                },
                full_streak: 0,
                low_streak: 0,
            }
        } else {
            RouteBudgetState { full_streak: 0, low_streak: (b.low_streak + 1) as u8, ..b }
        }
    } else {
        RouteBudgetState { full_streak: 0, low_streak: 0, ..b }
    }
}

impl RouteBudgetState {
    /// Takes the outcome of a round into account.
    pub fn update(&mut self, processed: usize, budget_hit: bool)
        ensures
            *final(self) == next_budget(*old(self), processed, budget_hit),
    {
        if budget_hit {
            self.full_streak = self.full_streak.saturating_add(1);
            self.low_streak = 0;
            if self.full_streak >= 2 {
                self.current = if self.current < ROUTE_DRAIN_MAX_BUDGET / 2 {
                    self.current * 2
                } else {
                    ROUTE_DRAIN_MAX_BUDGET
                };
                self.full_streak = 0;
            }
            return;
        }
        let quarter: usize = self.current / 4;
        let low_threshold: usize = if quarter > 1 {
            quarter
        } else {
            1
        };
        if processed <= low_threshold {
            self.low_streak = self.low_streak.saturating_add(1);
            self.full_streak = 0;
            if self.low_streak >= 8 {
                let halved: usize = self.current / 2;
                self.current = if halved > ROUTE_DRAIN_MIN_BUDGET {
                    halved
                } else {
                    ROUTE_DRAIN_MIN_BUDGET
                };
                self.low_streak = 0;
            }
            return;
        }
        self.low_streak = 0;
        self.full_streak = 0;
    }
}

/// A budget within its limits stays within them, and the initial one is.
pub proof fn budget_stays_in_limits(b: RouteBudgetState, processed: usize, budget_hit: bool)
    ensures
        ROUTE_DRAIN_MIN_BUDGET <= initial_budget().current <= ROUTE_DRAIN_MAX_BUDGET,
        ROUTE_DRAIN_MIN_BUDGET <= b.current <= ROUTE_DRAIN_MAX_BUDGET ==> ROUTE_DRAIN_MIN_BUDGET
            <= next_budget(b, processed, budget_hit).current <= ROUTE_DRAIN_MAX_BUDGET,
{
}

// ---------------------------------------------------------------------------
// The state
// ---------------------------------------------------------------------------

/// What changes while the daemon runs.
pub struct EventLoopState {
    pub pending: PendingMap,
    pub quiet_deadline: Option<u128>,
    pub max_deadline: Option<u128>,
    pub inflight: Option<InflightBatch>,
    pub dropped_count: u64,
    pub batch_id: u64,
    pub shutdown_requested: bool,
    pub resync_requested: bool,
    pub resync_compensate_pending: bool,
    pub maintenance: MaintenanceJob,
    pub shutdown_cleanup_done: bool,
    pub shutdown_cleanup: CleanupSummary,
    pub route_budget: RouteBudgetState,
    pub route_ring_calm_streak: u8,
    pub completed_batch: Option<CompletedBatch>,
    pub startup_cleanup_pending: bool,
    pub startup_cleanup_retry_deadline: Option<u128>,
    pub startup_cleanup_retry_count: u8,
    pub startup_cleanup_started_at: Option<u64>,
}

/// An `EventLoopState` with its collections as mathematical ones.
pub struct State {
    pub pending: Map<IpKey, RuleAction>,
    pub quiet_deadline: Option<u128>,
    pub max_deadline: Option<u128>,
    pub inflight: Option<Inflight>,
    pub dropped_count: u64,
    pub batch_id: u64,
    pub shutdown_requested: bool,
    pub resync_requested: bool,
    pub resync_compensate_pending: bool,
    pub maintenance: MaintenanceJob,
    pub shutdown_cleanup_done: bool,
    pub shutdown_cleanup: CleanupSummary,
    pub route_budget: RouteBudgetState,
    pub route_ring_calm_streak: u8,
    pub completed_batch: Option<CompletedBatch>,
    pub startup_cleanup_pending: bool,
    pub startup_cleanup_retry_deadline: Option<u128>,
    pub startup_cleanup_retry_count: u8,
    pub startup_cleanup_started_at: Option<u64>,
}

/// The view of an optional batch in flight.
pub open spec fn inflight_view(b: Option<InflightBatch>) -> Option<Inflight> {
    match b {
        Some(b) => Some(b@),
        None => None,
    }
}

impl View for EventLoopState {
    type V = State;

    open spec fn view(&self) -> State {
        State {
            pending: self.pending@,
            quiet_deadline: self.quiet_deadline,
            max_deadline: self.max_deadline,
            inflight: inflight_view(self.inflight),
            dropped_count: self.dropped_count,
            batch_id: self.batch_id,
            shutdown_requested: self.shutdown_requested,
            resync_requested: self.resync_requested,
            resync_compensate_pending: self.resync_compensate_pending,
            maintenance: self.maintenance,
            shutdown_cleanup_done: self.shutdown_cleanup_done,
            shutdown_cleanup: self.shutdown_cleanup,
            route_budget: self.route_budget,
            route_ring_calm_streak: self.route_ring_calm_streak,
            completed_batch: self.completed_batch,
            startup_cleanup_pending: self.startup_cleanup_pending,
            startup_cleanup_retry_deadline: self.startup_cleanup_retry_deadline,
            startup_cleanup_retry_count: self.startup_cleanup_retry_count,
            startup_cleanup_started_at: self.startup_cleanup_started_at,
        }
    }
}

/// The state before the first event: the startup cleanup is still to be done.
pub open spec fn initial_state() -> State {
    State {
        pending: Map::empty(),
        quiet_deadline: None,
        max_deadline: None,
        inflight: None,
        dropped_count: 0,
        batch_id: 0,
        shutdown_requested: false,
        resync_requested: false,
        resync_compensate_pending: false,
        maintenance: MaintenanceJob::Idle,
        shutdown_cleanup_done: false,
        shutdown_cleanup: no_summary(),
        route_budget: initial_budget(),
        route_ring_calm_streak: 0,
        completed_batch: None,
        startup_cleanup_pending: true,
        startup_cleanup_retry_deadline: None,
        startup_cleanup_retry_count: 0,
        startup_cleanup_started_at: None,
    }
}

impl EventLoopState {
    /// The state before the first event.
    pub fn new() -> (r: Self)
        ensures
            r@ == initial_state(),
            r.inflight is None,
    {
        EventLoopState {
            pending: PendingMap::new(),
            quiet_deadline: None,
            max_deadline: None,
            inflight: None,
            dropped_count: 0,
            batch_id: 0,
            shutdown_requested: false,
            resync_requested: false,
            resync_compensate_pending: false,
            maintenance: MaintenanceJob::Idle,
            shutdown_cleanup_done: false,
            shutdown_cleanup: CleanupSummary::default(),
            route_budget: RouteBudgetState::default(),
            route_ring_calm_streak: 0,
            completed_batch: None,
            startup_cleanup_pending: true,
            startup_cleanup_retry_deadline: None,
            startup_cleanup_retry_count: 0,
            startup_cleanup_started_at: None,
        }
    }
}

/// The daemon: its options, the rules it owns, and what it works on.
pub struct Daemon {
    pub opts: Options,
    pub order: ByteOrder,
    pub rule_ctx: RuleContext,
    pub filters: IgnoreFilters,
    /// The addresses whose rules this process added.
    pub owned_ips: IpSet,
    pub resync_scratch: ResyncScratch,
    /// The addresses that the running rule dump has brought.
    pub dump_seen: IpSet,
    /// The next sequence number.
    pub next_seq: u32,
}

/// What changes in a `Daemon`.
pub struct Core {
    pub owned: Set<IpKey>,
    pub target: Seq<IpKey>,
    pub current: Seq<IpKey>,
    pub leaving: Seq<IpKey>,
    pub startup: Seq<IpKey>,
    pub dump_seen: Set<IpKey>,
    pub next_seq: u32,
}

impl View for Daemon {
    type V = Core;

    open spec fn view(&self) -> Core {
        Core {
            owned: self.owned_ips@,
            target: self.resync_scratch.target_keys@,
            current: self.resync_scratch.current_keys@,
            leaving: self.resync_scratch.tracked_keys@,
            startup: self.resync_scratch.startup_cleanup_keys@,
            dump_seen: self.dump_seen@,
            next_seq: self.next_seq,
        }
    }
}

impl Daemon {
    /// What does not change in a daemon stays the same.
    pub open spec fn same_setup(&self, other: &Daemon) -> bool {
        &&& self.opts == other.opts
        &&& self.order == other.order
        &&& self.rule_ctx == other.rule_ctx
        &&& self.filters == other.filters
    }

    /// A daemon that owns no rule yet.
    pub fn new(opts: Options, order: ByteOrder) -> (r: Self)
        requires
            opts.wf(),
        ensures
            r.opts == opts,
            r.order == order,
            r.rule_ctx == (RuleContext { pref: opts.pref, table_id: opts.table_id }),
            r.rule_ctx.pref == opts.pref,
            r.rule_ctx.table_id == opts.table_id,
            forall|key: IpKey|
                #[trigger] r.filters.ignores(key) == listed(
                    key,
                    opts.ignore_ips@,
                    opts.ignore_cidrs@,
                ),
            r.filters.flag_mask == opts.ignore_addr_flag_mask,
            r@ == (Core {
                owned: Set::empty(),
                target: Seq::empty(),
                current: Seq::empty(),
                leaving: Seq::empty(),
                startup: Seq::empty(),
                dump_seen: Set::empty(),
                next_seq: 1,
            }),
    {
        let rule_ctx = new_rule_context(opts.pref, opts.table_id);
        let filters = IgnoreFilters::new(
            opts.ignore_ips.as_slice(),
            opts.ignore_cidrs.as_slice(),
            opts.ignore_addr_flag_mask,
        );
        Daemon {
            opts,
            order,
            rule_ctx,
            filters,
            owned_ips: IpSet::new(),
            resync_scratch: ResyncScratch {
                target_keys: Vec::new(),
                current_keys: Vec::new(),
                tracked_keys: Vec::new(),
                startup_cleanup_keys: Vec::new(),
            },
            dump_seen: IpSet::new(),
            next_seq: 1,
        }
    }
}

} // verus!
