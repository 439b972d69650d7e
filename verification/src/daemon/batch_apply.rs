//! Batches of rule changes: what goes into one, and what becomes of it.
use crate::bytes::ByteOrder;
use crate::daemon::state::{
    op_view, ops_view, ApplyResult, Batch, CompletedBatch, Core, Daemon, EventLoopState, Inflight,
    InflightBatch, InflightOwner, KeyOp, MaintenanceJob, OutboundBatch, State,
};
use crate::error::AppError;
use crate::ip_key::IpKey;
use crate::ip_set::{IpSet, PendingMap};
use crate::kernel::NANOS_PER_MILLI;
use crate::netlink::codec::{seq_after, seq_norm, seq_with_offset, AckError};
use crate::netlink::rule::{
    ack_class, after_items, classify_ack_for_op, drain_apply_ack_messages, fresh_tracker,
    start_apply_rules_batch, AckTracker, NetlinkAckStatus, RuleAckClass, RuleAction, RuleOp,
    Tracker, ACK_WAIT_TIMEOUT,
};
use crate::netlink::socket::{packet_items, MmsgRxRing};
use vstd::prelude::*;

verus! {

/// The number after a batch number; the greatest is followed by zero.
pub open spec fn next_id(id: u64) -> u64 {
    if id == u64::MAX {
        0
    } else {
        (id + 1) as u64
    }
}

/// The number after a batch number.
pub fn next_batch_id(id: u64) -> (r: u64)
    ensures
        r == next_id(id),
{
    if id == u64::MAX {
        0
    } else {
        id + 1
    }
}

/// The point that many milliseconds after `now`.
pub open spec fn after_millis(now: u64, ms: u64) -> u128 {
    (now + ms * NANOS_PER_MILLI) as u128
}

/// The point that many milliseconds after `now`.
pub fn deadline_after(now: u64, ms: u64) -> (r: u128)
    ensures
        r == after_millis(now, ms),
        r == now + ms * 1_000_000,
{
    now as u128 + ms as u128 * 1_000_000
}

/// How much later `now` is than `then`; zero where it is earlier.
pub open spec fn elapsed(now: u64, then: u64) -> u64 {
    if now >= then {
        (now - then) as u64
    } else {
        0
    }
}

// ---------------------------------------------------------------------------
// Starting a batch
// ---------------------------------------------------------------------------

/// Whether a change would change nothing: the rule to add is owned, or the one to delete is not.
pub open spec fn is_noop(op: KeyOp, owned: Set<IpKey>) -> bool {
    match op.action {
        RuleAction::Add => owned.contains(op.key),
        RuleAction::Delete => !owned.contains(op.key),
    }
}

/// The changes that are not without effect, in order.
pub open spec fn effective(ops: Seq<KeyOp>, owned: Set<IpKey>) -> Seq<KeyOp>
    decreases ops.len(),
{
    if ops.len() == 0 {
        Seq::empty()
    } else if is_noop(ops.last(), owned) {
        effective(ops.drop_last(), owned)
    } else {
        effective(ops.drop_last(), owned).push(ops.last())
    }
}

/// There are no more effective changes than changes.
pub proof fn lemma_effective_len(ops: Seq<KeyOp>, owned: Set<IpKey>)
    ensures
        effective(ops, owned).len() <= ops.len(),
    decreases ops.len(),
{
    if ops.len() > 0 {
        lemma_effective_len(ops.drop_last(), owned);
    }
}

/// What is pending for each of the keys, in order.
pub open spec fn pending_ops(pending: Map<IpKey, RuleAction>, keys: Seq<IpKey>) -> Seq<KeyOp> {
    Seq::new(keys.len(), |i: int| KeyOp { key: keys[i], action: pending[keys[i]] })
}

/// How many of the pending changes go into a batch.
pub open spec fn batch_size(batch_max: usize, available: nat) -> nat {
    if batch_max < available {
        batch_max as nat
    } else {
        available
    }
}

/// What a flush of the pending changes comes to.
pub enum Flush {
    /// There is nothing to flush, or a batch is under way.
    Nothing,
    /// Every change that was taken out would change nothing.
    AllNoop(int),
    /// A batch is to be sent.
    Send(Batch),
}

/// The state and the daemon after a flush, and what it comes to. `keys` are the pending keys in
/// the order in which they are taken out.
pub open spec fn flushed(
    c: Core,
    s: State,
    keys: Seq<IpKey>,
    batch_max: usize,
    debounce_ms: u64,
    debounce_max_ms: u64,
    now: u64,
) -> (Core, State, Flush) {
    if s.inflight is Some || keys.len() == 0 {
        (c, s, Flush::Nothing)
    } else {
        let n = batch_size(batch_max, keys.len());
        let taken = keys.subrange(0, n as int);
        let more = n < keys.len();
        let ops = effective(pending_ops(s.pending, taken), c.owned);
        let left = State {
            pending: s.pending.remove_keys(taken.to_set()),
            quiet_deadline: if more {
                Some(after_millis(now, debounce_ms))
            } else {
                None
            },
            max_deadline: if more {
                Some(after_millis(now, debounce_max_ms))
            } else {
                None
            },
            ..s
        };
        if n == 0 {
            (c, left, Flush::Nothing)
        } else if ops.len() == 0 {
            (c, left, Flush::AllNoop(n as int))
        } else {
            let batch = Batch {
                batch_id: next_id(s.batch_id),
                first_seq: seq_norm(c.next_seq) as u32,
                ops,
                input_count: n as int,
                noop_prefilter: n - ops.len(),
                owner: InflightOwner::Pending,
            };
            (
                Core { next_seq: seq_after(c.next_seq, ops.len() as int) as u32, ..c },
                State { batch_id: next_id(s.batch_id), ..left },
                Flush::Send(batch),
            )
        }
    }
}

/// What a flush of the pending changes comes to.
pub enum PendingStart {
    Nothing,
    AllNoop { count_input: usize },
    Send(OutboundBatch),
}

impl View for PendingStart {
    type V = Flush;

    open spec fn view(&self) -> Flush {
        match self {
            PendingStart::Nothing => Flush::Nothing,
            PendingStart::AllNoop { count_input } => Flush::AllNoop(*count_input as int),
            PendingStart::Send(batch) => Flush::Send(batch@),
        }
    }
}

/// Takes the changes for the first `n` keys out of the pending ones.
fn take_pending(pending: &mut PendingMap, keys: &[IpKey], n: usize) -> (r: Vec<RuleOp>)
    requires
        n <= keys@.len(),
        keys@.no_duplicates(),
        keys@.to_set() == old(pending)@.dom(),
    ensures
        ops_view(r@) == pending_ops(old(pending)@, keys@.subrange(0, n as int)),
        final(pending)@ == old(pending)@.remove_keys(keys@.subrange(0, n as int).to_set()),
{
    let ghost start = pending@;
    let mut ops: Vec<RuleOp> = Vec::new();
    assert(start.remove_keys(keys@.subrange(0, 0).to_set()) =~= start);
    assert(ops_view(ops@) =~= pending_ops(start, keys@.subrange(0, 0)));
    for i in 0..n
        invariant
            n <= keys@.len(),
            keys@.no_duplicates(),
            keys@.to_set() == start.dom(),
            ops_view(ops@) == pending_ops(start, keys@.subrange(0, i as int)),
            pending@ == start.remove_keys(keys@.subrange(0, i as int).to_set()),
    {
        let key: IpKey = keys[i];
        let ghost before = ops@;
        let ghost done = keys@.subrange(0, i as int);
        proof {
            assert(keys@.to_set().contains(keys@[i as int]));
            assert(!done.contains(key));
            assert(pending@.contains_key(key));
        }
        match pending.remove(&key) {
            Some(action) => {
                ops.push(RuleOp { addr: key.into_ip(), action });
            },
            None => {},
        }
        proof {
            let upto = keys@.subrange(0, i + 1);
            assert(upto =~= done.push(key));
            assert(ops_view(before).len() == pending_ops(start, done).len());
            assert forall|j: int| 0 <= j <= i implies ops_view(ops@)[j] == pending_ops(
                start,
                upto,
            )[j] by {
                if j < i {
                    assert(ops_view(before)[j] == pending_ops(start, done)[j]);
                }
            }
            assert(ops_view(ops@) =~= pending_ops(start, upto));
            assert forall|k: IpKey| upto.to_set().contains(k) == (done.to_set().contains(k) || k
                == key) by {
                if done.contains(k) {
                    let j = choose|j: int| 0 <= j < done.len() && done[j] == k;
                    assert(upto[j] == k);
                }
                assert(upto[i as int] == key);
            }
            assert(pending@ =~= start.remove_keys(upto.to_set()));
        }
    }
    ops
}

/// Drops the changes that would change nothing.
fn keep_effective(ops: Vec<RuleOp>, owned: &IpSet) -> (r: Vec<RuleOp>)
    ensures
        ops_view(r@) == effective(ops_view(ops@), owned@),
{
    let mut kept: Vec<RuleOp> = Vec::new();
    let ghost all = ops_view(ops@);
    assert(all.subrange(0, 0) =~= Seq::<KeyOp>::empty());
    assert(ops_view(kept@) =~= Seq::<KeyOp>::empty());
    for i in 0..ops.len()
        invariant
            all == ops_view(ops@),
            ops_view(kept@) == effective(all.subrange(0, i as int), owned@),
    {
        let op: RuleOp = ops[i];
        let ghost before = ops_view(kept@);
        let key = IpKey::from_ip(op.addr);
        let skip = match op.action {
            RuleAction::Add => owned.contains(&key),
            RuleAction::Delete => !owned.contains(&key),
        };
        proof {
            assert(all.subrange(0, i + 1).drop_last() =~= all.subrange(0, i as int));
            assert(all.subrange(0, i + 1).last() == op_view(op));
        }
        if !skip {
            kept.push(op);
            assert(ops_view(kept@) =~= before.push(op_view(op)));
        }
    }
    assert(all.subrange(0, all.len() as int) =~= all);
    kept
}

/// The batch in flight once a batch was sent.
pub open spec fn sent(b: Batch, now: u64) -> Inflight {
    Inflight {
        batch: b,
        started_at: now,
        ack_deadline: (now + ACK_WAIT_TIMEOUT) as u128,
        tracker: fresh_tracker(b.ops.len()),
    }
}

/// Starts to wait for the acknowledgements of a batch.
pub fn into_inflight(batch: OutboundBatch, now: u64) -> (r: InflightBatch)
    requires
        batch.input_count == batch.noop_prefilter + batch.ops@.len(),
    ensures
        r@ == sent(batch@, now),
        r.wf(),
{
    let mut tracker = AckTracker::default();
    tracker.prepare(batch.ops.len());
    InflightBatch {
        batch_id: batch.batch_id,
        started_at: now,
        ack_deadline: now as u128 + ACK_WAIT_TIMEOUT as u128,
        input_count: batch.input_count,
        noop_prefilter: batch.noop_prefilter,
        first_seq: batch.first_seq,
        tracker,
        owner: batch.owner,
        ops: batch.ops,
    }
}

/// Takes note that a batch was sent.
pub fn batch_sent(state: &mut EventLoopState, batch: OutboundBatch, now: u64)
    requires
        batch.input_count == batch.noop_prefilter + batch.ops@.len(),
    ensures
        final(state)@ == (State { inflight: Some(sent(batch@, now)), ..old(state)@ }),
        final(state).inflight matches Some(b) && b.wf(),
{
    state.inflight = Some(into_inflight(batch, now));
}

/// A maintenance batch, where none is under way and there is something to do.
pub open spec fn maintenance_batch(
    c: Core,
    s: State,
    batch_id: u64,
    ops: Seq<KeyOp>,
) -> (Core, Option<Batch>) {
    if s.inflight is Some || ops.len() == 0 {
        (c, None)
    } else {
        (
            Core { next_seq: seq_after(c.next_seq, ops.len() as int) as u32, ..c },
            Some(
                Batch {
                    batch_id,
                    first_seq: seq_norm(c.next_seq) as u32,
                    ops,
                    input_count: ops.len() as int,
                    noop_prefilter: 0,
                    owner: InflightOwner::Maintenance,
                },
            ),
        )
    }
}

/// The view of an optional batch.
pub open spec fn batch_view(b: Option<OutboundBatch>) -> Option<Batch> {
    match b {
        Some(b) => Some(b@),
        None => None,
    }
}

impl Daemon {
    /// Flushes pending changes into a batch. `keys` lists the pending keys; they are taken in
    /// that order.
    pub fn start_pending_batch_of(
        &mut self,
        state: &mut EventLoopState,
        keys: &[IpKey],
        now: u64,
    ) -> (r: PendingStart)
        requires
            keys@.no_duplicates(),
            keys@.to_set() == old(state)@.pending.dom(),
        ensures
            final(self).same_setup(old(self)),
            (final(self)@, final(state)@, r@) == flushed(
                old(self)@,
                old(state)@,
                keys@,
                old(self).opts.batch_max,
                old(self).opts.debounce_ms,
                old(self).opts.debounce_max_ms,
                now,
            ),
            final(state).inflight == old(state).inflight,
            r matches PendingStart::Send(batch) ==> batch.wf(old(self).order, old(self).rule_ctx),
    {
        if state.inflight.is_some() || keys.len() == 0 {
            return PendingStart::Nothing;
        }
        let take_n: usize = if self.opts.batch_max < keys.len() {
            self.opts.batch_max
        } else {
            keys.len()
        };
        let ops = take_pending(&mut state.pending, keys, take_n);
        let ghost taken = ops_view(ops@);
        let input_count: usize = ops.len();
        assert(taken.len() == take_n);
        if take_n < keys.len() {
            state.quiet_deadline = Some(deadline_after(now, self.opts.debounce_ms));
            state.max_deadline = Some(deadline_after(now, self.opts.debounce_max_ms));
        } else {
            state.quiet_deadline = None;
            state.max_deadline = None;
        }
        if input_count == 0 {
            return PendingStart::Nothing;
        }
        let ops = keep_effective(ops, &self.owned_ips);
        proof {
            lemma_effective_len(taken, self.owned_ips@);
            assert(ops_view(ops@).len() == ops@.len());
        }
        if ops.len() == 0 {
            return PendingStart::AllNoop { count_input: input_count };
        }
        let noop_prefilter: usize = input_count - ops.len();
        state.batch_id = next_batch_id(state.batch_id);
        let batch = start_apply_rules_batch(
            self.order,
            &mut self.next_seq,
            self.rule_ctx,
            ops.as_slice(),
        );
        PendingStart::Send(
            OutboundBatch {
                batch_id: state.batch_id,
                first_seq: batch.first_seq,
                messages: batch.messages,
                ops,
                input_count,
                noop_prefilter,
                owner: InflightOwner::Pending,
            },
        )
    }

    /// Flushes pending changes into a batch, in the order in which the table lists them.
    pub fn start_pending_batch(&mut self, state: &mut EventLoopState, now: u64) -> (r:
        PendingStart)
        ensures
            final(self).same_setup(old(self)),
            exists|keys: Seq<IpKey>|
                keys.no_duplicates() && keys.to_set() == old(state)@.pending.dom() && (
                final(self)@,
                final(state)@,
                r@,
            ) == #[trigger] flushed(
                    old(self)@,
                    old(state)@,
                    keys,
                    old(self).opts.batch_max,
                    old(self).opts.debounce_ms,
                    old(self).opts.debounce_max_ms,
                    now,
                ),
            final(state).inflight == old(state).inflight,
            r matches PendingStart::Send(batch) ==> batch.wf(old(self).order, old(self).rule_ctx),
    {
        let keys = state.pending.keys();
        self.start_pending_batch_of(state, keys.as_slice(), now)
    }

    /// Makes a maintenance batch of the changes, where none is under way and there are some.
    pub fn start_maintenance_batch(
        &mut self,
        state: &EventLoopState,
        batch_id: u64,
        ops: Vec<RuleOp>,
    ) -> (r: Option<OutboundBatch>)
        ensures
            final(self).same_setup(old(self)),
            (final(self)@, batch_view(r)) == maintenance_batch(
                old(self)@,
                state@,
                batch_id,
                ops_view(ops@),
            ),
            r matches Some(batch) ==> batch.wf(old(self).order, old(self).rule_ctx),
    {
        if state.inflight.is_some() || ops.len() == 0 {
            return None;
        }
        let input_count: usize = ops.len();
        let batch = start_apply_rules_batch(
            self.order,
            &mut self.next_seq,
            self.rule_ctx,
            ops.as_slice(),
        );
        Some(
            OutboundBatch {
                batch_id,
                first_seq: batch.first_seq,
                messages: batch.messages,
                ops,
                input_count,
                noop_prefilter: 0,
                owner: InflightOwner::Maintenance,
            },
        )
    }
}

// ---------------------------------------------------------------------------
// The end of a batch
// ---------------------------------------------------------------------------

/// What became of one change.
pub enum Outcome {
    Timeout,
    Applied,
    NoopEexist,
    NoopEnoent,
    Failed(AckError),
}

/// What became of one change.
#[derive(Debug, Clone, Copy)]
pub enum OpOutcome {
    Timeout,
    Applied,
    NoopEexist,
    NoopEnoent,
    Failed(NetlinkAckStatus),
}

impl View for OpOutcome {
    type V = Outcome;

    open spec fn view(&self) -> Outcome {
        match self {
            OpOutcome::Timeout => Outcome::Timeout,
            OpOutcome::Applied => Outcome::Applied,
            OpOutcome::NoopEexist => Outcome::NoopEexist,
            OpOutcome::NoopEnoent => Outcome::NoopEnoent,
            OpOutcome::Failed(status) => Outcome::Failed(status@),
        }
    }
}

/// What became of the change at place `i`.
pub open spec fn outcome_at(op: KeyOp, t: Tracker, i: int) -> Outcome {
    if !(i < t.seen.len() && t.seen[i]) {
        Outcome::Timeout
    } else {
        match t.status[i] {
            None => Outcome::Applied,
            Some(e) => match ack_class(op.action == RuleAction::Add, Some(e.errno)) {
                RuleAckClass::Applied => Outcome::Applied,
                RuleAckClass::EexistNoop => Outcome::NoopEexist,
                RuleAckClass::EnoentNoop => Outcome::NoopEnoent,
                RuleAckClass::KernelErr => Outcome::Failed(e),
            },
        }
    }
}

/// What became of the changes.
pub open spec fn outcomes(ops: Seq<KeyOp>, t: Tracker) -> Seq<Outcome> {
    Seq::new(ops.len(), |i: int| outcome_at(ops[i], t, i))
}

/// The rules that are owned after the changes: those added join, those deleted leave.
pub open spec fn owned_after(owned: Set<IpKey>, ops: Seq<KeyOp>, t: Tracker) -> Set<IpKey>
    decreases ops.len(),
{
    if ops.len() == 0 {
        owned
    } else {
        let before = owned_after(owned, ops.drop_last(), t);
        let op = ops.last();
        match outcome_at(op, t, ops.len() - 1) {
            Outcome::Applied => match op.action {
                RuleAction::Add => before.insert(op.key),
                RuleAction::Delete => before.remove(op.key),
            },
            _ => before,
        }
    }
}

/// How many changes came to what.
pub struct Tally {
    pub noop: int,
    pub added: int,
    pub deleted: int,
    pub failed: int,
}

/// How many changes came to what.
pub open spec fn tally(ops: Seq<KeyOp>, t: Tracker) -> Tally
    decreases ops.len(),
{
    if ops.len() == 0 {
        Tally { noop: 0, added: 0, deleted: 0, failed: 0 }
    } else {
        let before = tally(ops.drop_last(), t);
        let op = ops.last();
        match outcome_at(op, t, ops.len() - 1) {
            Outcome::Timeout => Tally { failed: before.failed + 1, ..before },
            Outcome::Failed(_) => Tally { failed: before.failed + 1, ..before },
            Outcome::NoopEexist => Tally { noop: before.noop + 1, ..before },
            Outcome::NoopEnoent => Tally { noop: before.noop + 1, ..before },
            Outcome::Applied => match op.action {
                RuleAction::Add => Tally { added: before.added + 1, ..before },
                RuleAction::Delete => Tally { deleted: before.deleted + 1, ..before },
            },
        }
    }
}

/// Every change is counted exactly once.
pub proof fn tally_counts_every_change(ops: Seq<KeyOp>, t: Tracker)
    ensures
        tally(ops, t).noop >= 0,
        tally(ops, t).added >= 0,
        tally(ops, t).deleted >= 0,
        tally(ops, t).failed >= 0,
        tally(ops, t).noop + tally(ops, t).added + tally(ops, t).deleted + tally(ops, t).failed
            == ops.len(),
    decreases ops.len(),
{
    if ops.len() > 0 {
        tally_counts_every_change(ops.drop_last(), t);
    }
}

/// In a batch that names each address once, a rule is owned afterwards if and only if its change
/// was made and added it, or was not made and the rule was owned before.
pub proof fn owned_after_each_change(owned: Set<IpKey>, ops: Seq<KeyOp>, t: Tracker, i: int)
    requires
        0 <= i < ops.len(),
        forall|a: int, b: int| 0 <= a < b < ops.len() ==> ops[a].key != ops[b].key,
    ensures
        owned_after(owned, ops, t).contains(ops[i].key) == match outcome_at(ops[i], t, i) {
            Outcome::Applied => ops[i].action == RuleAction::Add,
            _ => owned.contains(ops[i].key),
        },
    decreases ops.len(),
{
    let init = ops.drop_last();
    if i < init.len() {
        owned_after_each_change(owned, init, t, i);
        assert(ops.last().key != ops[i].key);
    } else {
        lemma_owned_untouched(owned, init, t, ops[i].key);
    }
}

/// A rule that no change names stays as it was.
pub proof fn lemma_owned_untouched(owned: Set<IpKey>, ops: Seq<KeyOp>, t: Tracker, key: IpKey)
    requires
        forall|a: int| 0 <= a < ops.len() ==> ops[a].key != key,
    ensures
        owned_after(owned, ops, t).contains(key) == owned.contains(key),
    decreases ops.len(),
{
    if ops.len() > 0 {
        lemma_owned_untouched(owned, ops.drop_last(), t, key);
    }
}

/// What a batch came to.
pub open spec fn batch_result(b: Inflight, now: u64) -> ApplyResult {
    let counts = tally(b.batch.ops, b.tracker);
    ApplyResult {
        input: b.batch.input_count as usize,
        noop: (b.batch.noop_prefilter + counts.noop) as usize,
        added: counts.added as usize,
        deleted: counts.deleted as usize,
        failed: counts.failed as usize,
        duration: elapsed(now, b.started_at),
    }
}

/// What a batch is known by when its acknowledgements are taken over.
#[derive(Debug, Clone, Copy)]
pub struct AckCommitCtx {
    pub started_at: u64,
    pub input_count: usize,
    pub noop_prefilter: usize,
}

/// The views of a list of outcomes.
pub open spec fn outcome_views(s: Seq<OpOutcome>) -> Seq<Outcome> {
    Seq::new(s.len(), |i: int| s[i]@)
}

/// How much later `now` is than `then`; zero where it is earlier.
fn elapsed_since(now: u64, then: u64) -> (r: u64)
    ensures
        r == elapsed(now, then),
{
    if now >= then {
        now - then
    } else {
        0
    }
}

/// Tells what became of the change at place `i`.
fn read_outcome(op: RuleOp, tracker: &AckTracker, i: usize) -> (r: OpOutcome)
    requires
        tracker.wf(),
    ensures
        r@ == outcome_at(op_view(op), tracker@, i as int),
{
    if !tracker.seen_at(i) {
        return OpOutcome::Timeout;
    }
    let status = tracker.status_at(i);
    match classify_ack_for_op(op, status) {
        RuleAckClass::Applied => OpOutcome::Applied,
        RuleAckClass::EexistNoop => OpOutcome::NoopEexist,
        RuleAckClass::EnoentNoop => OpOutcome::NoopEnoent,
        RuleAckClass::KernelErr => match status {
            Some(status) => OpOutcome::Failed(*status),
            None => OpOutcome::Applied,
        },
    }
}

/// Takes over what became of the changes of a batch: which rules are owned now, how many changes
/// came to what, and what became of each.
pub fn commit_ack_outcomes(
    owned: &mut IpSet,
    ctx: AckCommitCtx,
    ops: &[RuleOp],
    tracker: &AckTracker,
    now: u64,
) -> (r: (ApplyResult, Vec<OpOutcome>))
    requires
        tracker.wf(),
        ctx.noop_prefilter + ops@.len() <= usize::MAX,
    ensures
        final(owned)@ == owned_after(old(owned)@, ops_view(ops@), tracker@),
        ({
            let counts = tally(ops_view(ops@), tracker@);
            &&& r.0.input == ctx.input_count
            &&& r.0.noop == ctx.noop_prefilter + counts.noop
            &&& r.0.added == counts.added
            &&& r.0.deleted == counts.deleted
            &&& r.0.failed == counts.failed
            &&& r.0.duration == elapsed(now, ctx.started_at)
        }),
        outcome_views(r.1@) == outcomes(ops_view(ops@), tracker@),
{
    let mut added: usize = 0;
    let mut deleted: usize = 0;
    let mut noop: usize = ctx.noop_prefilter;
    let mut failed: usize = 0;
    let mut list: Vec<OpOutcome> = Vec::new();
    let ghost all = ops_view(ops@);
    assert(all.subrange(0, 0) =~= Seq::<KeyOp>::empty());
    for i in 0..ops.len()
        invariant
            all == ops_view(ops@),
            tracker.wf(),
            ctx.noop_prefilter + ops@.len() <= usize::MAX,
            owned@ == owned_after(old(owned)@, all.subrange(0, i as int), tracker@),
            ({
                let counts = tally(all.subrange(0, i as int), tracker@);
                &&& noop == ctx.noop_prefilter + counts.noop
                &&& added == counts.added
                &&& deleted == counts.deleted
                &&& failed == counts.failed
            }),
            list@.len() == i,
            forall|j: int| 0 <= j < i ==> (#[trigger] list@[j])@ == outcome_at(all[j], tracker@, j),
    {
        let op: RuleOp = ops[i];
        proof {
            let upto = all.subrange(0, i + 1);
            assert(upto.drop_last() =~= all.subrange(0, i as int));
            assert(upto.last() == op_view(op));
            tally_counts_every_change(all.subrange(0, i as int), tracker@);
        }
        let outcome = read_outcome(op, tracker, i);
        match outcome {
            OpOutcome::Timeout => {
                failed = failed + 1;
            },
            OpOutcome::Failed(_) => {
                failed = failed + 1;
            },
            OpOutcome::NoopEexist => {
                noop = noop + 1;
            },
            OpOutcome::NoopEnoent => {
                noop = noop + 1;
            },
            OpOutcome::Applied => {
                let key = IpKey::from_ip(op.addr);
                match op.action {
                    RuleAction::Add => {
                        let _ = owned.insert(key);
                        added = added + 1;
                    },
                    RuleAction::Delete => {
                        let _ = owned.remove(&key);
                        deleted = deleted + 1;
                    },
                }
            },
        }
        list.push(outcome);
    }
    assert(all.subrange(0, all.len() as int) =~= all);
    assert(outcome_views(list@) =~= outcomes(all, tracker@));
    (
        ApplyResult {
            input: ctx.input_count,
            noop,
            added,
            deleted,
            failed,
            duration: elapsed_since(now, ctx.started_at),
        },
        list,
    )
}

/// A batch that has come to its end.
pub struct FinishedBatch {
    pub batch_id: u64,
    pub first_seq: u32,
    pub result: ApplyResult,
    pub ops: Vec<RuleOp>,
    pub outcomes: Vec<OpOutcome>,
}

/// Whether a report says what became of a batch.
pub open spec fn finished_as(f: FinishedBatch, b: Inflight, now: u64) -> bool {
    &&& f.batch_id == b.batch.batch_id
    &&& f.first_seq == b.batch.first_seq
    &&& f.result == batch_result(b, now)
    &&& ops_view(f.ops@) == b.batch.ops
    &&& outcome_views(f.outcomes@) == outcomes(b.batch.ops, b.tracker)
}

/// The state and the daemon after the batch in flight has come to its end. A maintenance batch
/// is handed to the job that waits for it.
pub open spec fn finished(c: Core, s: State, now: u64) -> (Core, State) {
    match s.inflight {
        None => (c, s),
        Some(b) => (
            Core { owned: owned_after(c.owned, b.batch.ops, b.tracker), ..c },
            State {
                inflight: None,
                completed_batch: if b.batch.owner == InflightOwner::Maintenance {
                    Some(
                        CompletedBatch {
                            batch_id: b.batch.batch_id,
                            result: batch_result(b, now),
                            owner: b.batch.owner,
                        },
                    )
                } else {
                    s.completed_batch
                },
                ..s
            },
        ),
    }
}

/// What a batch whose acknowledgements were given up came to: all that was sent failed.
pub open spec fn timeout_result(b: Inflight, now: u64) -> ApplyResult {
    ApplyResult {
        input: b.batch.input_count as usize,
        noop: b.batch.noop_prefilter as usize,
        added: 0,
        deleted: 0,
        failed: (b.batch.input_count - b.batch.noop_prefilter) as usize,
        duration: elapsed(now, b.started_at),
    }
}

/// The state after the acknowledgements of the batch in flight were given up. Where it held
/// pending changes, a resynchronisation makes up for them.
pub open spec fn timed_out(s: State, now: u64) -> State {
    match s.inflight {
        None => s,
        Some(b) => if b.batch.owner == InflightOwner::Pending {
            State { inflight: None, resync_requested: true, resync_compensate_pending: true, ..s }
        } else {
            State {
                inflight: None,
                completed_batch: Some(
                    CompletedBatch {
                        batch_id: b.batch.batch_id,
                        result: timeout_result(b, now),
                        owner: b.batch.owner,
                    },
                ),
                ..s
            }
        },
    }
}

/// A batch whose acknowledgements were given up.
pub struct TimedOutBatch {
    pub batch_id: u64,
    pub input_count: usize,
    pub pending: usize,
    /// The changes without acknowledgement, each with its sequence number.
    pub unseen: Vec<(u32, RuleOp)>,
    /// Whether a resynchronisation was asked for that had not been asked for before.
    pub compensate: bool,
}

/// The changes without acknowledgement, each with its sequence number.
pub open spec fn unseen_ops(b: Inflight, n: int) -> Seq<(u32, KeyOp)>
    decreases n,
{
    if n <= 0 {
        Seq::empty()
    } else if n - 1 < b.tracker.seen.len() && b.tracker.seen[n - 1] {
        unseen_ops(b, n - 1)
    } else {
        unseen_ops(b, n - 1).push(
            (seq_after(b.batch.first_seq, n - 1) as u32, b.batch.ops[n - 1]),
        )
    }
}

/// Changes with their sequence numbers, their addresses as keys.
pub open spec fn seq_ops_view(v: Seq<(u32, RuleOp)>) -> Seq<(u32, KeyOp)> {
    Seq::new(v.len(), |i: int| (v[i].0, op_view(v[i].1)))
}

/// Whether a report says which acknowledgements were given up.
pub open spec fn timed_out_as(t: TimedOutBatch, b: Inflight, compensate_pending: bool) -> bool {
    &&& t.batch_id == b.batch.batch_id
    &&& t.input_count == b.batch.input_count
    &&& t.pending == b.tracker.pending
    &&& seq_ops_view(t.unseen@) == unseen_ops(b, b.batch.ops.len() as int)
    &&& t.compensate == (b.batch.owner == InflightOwner::Pending && !compensate_pending)
}

/// Asks for a resynchronisation; tells whether none had been asked for to make up for a loss.
pub fn queue_compensate_resync(state: &mut EventLoopState) -> (r: bool)
    ensures
        final(state)@ == (State {
            resync_requested: true,
            resync_compensate_pending: true,
            ..old(state)@
        }),
        final(state).inflight == old(state).inflight,
        r == !old(state)@.resync_compensate_pending,
{
    state.resync_requested = true;
    if state.resync_compensate_pending {
        return false;
    }
    state.resync_compensate_pending = true;
    true
}

/// Gives up the acknowledgements of the batch in flight.
pub fn handle_ack_timeout(state: &mut EventLoopState, now: u64) -> (r: Option<TimedOutBatch>)
    requires
        old(state).inflight matches Some(b) ==> b.wf(),
    ensures
        final(state)@ == timed_out(old(state)@, now),
        final(state).inflight is None,
        match (r, old(state)@.inflight) {
            (None, None) => true,
            (Some(t), Some(b)) => timed_out_as(t, b, old(state)@.resync_compensate_pending),
            _ => false,
        },
{
    let inflight = match state.inflight.take() {
        Some(inflight) => inflight,
        None => return None,
    };
    let ghost b = inflight@;
    let mut unseen: Vec<(u32, RuleOp)> = Vec::new();
    assert(seq_ops_view(unseen@) =~= unseen_ops(b, 0));
    for i in 0..inflight.ops.len()
        invariant
            b == inflight@,
            seq_ops_view(unseen@) == unseen_ops(b, i as int),
    {
        let ghost before = seq_ops_view(unseen@);
        if !inflight.tracker.seen_at(i) {
            let seq: u32 = seq_with_offset(inflight.first_seq, i);
            unseen.push((seq, inflight.ops[i]));
            assert(seq_ops_view(unseen@) =~= before.push((seq, b.batch.ops[i as int])));
        }
    }
    let mut compensate = false;
    match inflight.owner {
        InflightOwner::Pending => {
            compensate = queue_compensate_resync(state);
        },
        InflightOwner::Maintenance => {
            state.completed_batch =
            Some(
                CompletedBatch {
                    batch_id: inflight.batch_id,
                    result: ApplyResult {
                        input: inflight.input_count,
                        noop: inflight.noop_prefilter,
                        added: 0,
                        deleted: 0,
                        failed: inflight.input_count - inflight.noop_prefilter,
                        duration: elapsed_since(now, inflight.started_at),
                    },
                    owner: inflight.owner,
                },
            );
        },
    }
    Some(
        TimedOutBatch {
            batch_id: inflight.batch_id,
            input_count: inflight.input_count,
            pending: inflight.tracker.pending(),
            unseen,
            compensate,
        },
    )
}

impl Daemon {
    /// Brings a batch to its end.
    pub fn finish_batch(&mut self, inflight: InflightBatch, now: u64) -> (r: FinishedBatch)
        requires
            inflight.wf(),
        ensures
            final(self).same_setup(old(self)),
            final(self)@ == (Core {
                owned: owned_after(old(self)@.owned, inflight@.batch.ops, inflight@.tracker),
                ..old(self)@
            }),
            finished_as(r, inflight@, now),
    {
        let ctx = AckCommitCtx {
            started_at: inflight.started_at,
            input_count: inflight.input_count,
            noop_prefilter: inflight.noop_prefilter,
        };
        let (result, outcomes) = commit_ack_outcomes(
            &mut self.owned_ips,
            ctx,
            inflight.ops.as_slice(),
            &inflight.tracker,
            now,
        );
        proof {
            tally_counts_every_change(ops_view(inflight.ops@), inflight.tracker@);
        }
        FinishedBatch {
            batch_id: inflight.batch_id,
            first_seq: inflight.first_seq,
            result,
            ops: inflight.ops,
            outcomes,
        }
    }

    /// Brings the batch in flight to its end.
    pub fn finish_inflight_batch(&mut self, state: &mut EventLoopState, now: u64) -> (r: Option<
        FinishedBatch,
    >)
        requires
            old(state).inflight matches Some(b) ==> b.wf(),
        ensures
            final(self).same_setup(old(self)),
            (final(self)@, final(state)@) == finished(old(self)@, old(state)@, now),
            final(state).inflight is None,
            match (r, old(state)@.inflight) {
                (None, None) => true,
                (Some(f), Some(b)) => finished_as(f, b, now),
                _ => false,
            },
    {
        let inflight = match state.inflight.take() {
            Some(inflight) => inflight,
            None => return None,
        };
        let owner = inflight.owner;
        let r = self.finish_batch(inflight, now);
        if owner == InflightOwner::Maintenance {
            state.completed_batch =
            Some(CompletedBatch { batch_id: r.batch_id, result: r.result, owner });
        }
        Some(r)
    }

    /// Takes the acknowledgements among the first `count` packets for a batch.
    pub fn absorb_batch_acks(
        &self,
        inflight: &mut InflightBatch,
        ring: &MmsgRxRing,
        count: usize,
    ) -> (r: Result<(), AppError>)
        requires
            ring.wf(),
            count <= ring@.len(),
            old(inflight).wf(),
        ensures
            final(inflight).wf(),
            ({
                let after = after_items(
                    self.order,
                    old(inflight)@.tracker,
                    packet_items(self.order, ring@.subrange(0, count as int)),
                    old(inflight)@.batch.first_seq,
                    old(inflight)@.batch.ops.len() as int,
                );
                &&& final(inflight)@ == (Inflight { tracker: after.0, ..old(inflight)@ })
                &&& match r {
                    Ok(_) => after.1 is None,
                    Err(e) => after.1 == Some(e@),
                }
            }),
    {
        proof {
            lemma_after_items_keeps_length(
                self.order,
                inflight@.tracker,
                packet_items(self.order, ring@.subrange(0, count as int)),
                inflight.first_seq,
                inflight.ops@.len() as int,
            );
        }
        drain_apply_ack_messages(
            self.order,
            ring,
            count,
            inflight.first_seq,
            inflight.ops.len(),
            &mut inflight.tracker,
        )
    }

    /// Takes the acknowledgements among the first `count` packets for the batch in flight.
    pub fn absorb_acks(&self, state: &mut EventLoopState, ring: &MmsgRxRing, count: usize) -> (r:
        Result<(), AppError>)
        requires
            ring.wf(),
            count <= ring@.len(),
            old(state).inflight matches Some(b) ==> b.wf(),
        ensures
            final(state).inflight matches Some(b) ==> b.wf(),
            match old(state)@.inflight {
                None => final(state)@ == old(state)@ && r is Ok,
                Some(b) => {
                    let after = after_items(
                        self.order,
                        b.tracker,
                        packet_items(self.order, ring@.subrange(0, count as int)),
                        b.batch.first_seq,
                        b.batch.ops.len() as int,
                    );
                    &&& final(state)@ == (State {
                        inflight: Some(Inflight { tracker: after.0, ..b }),
                        ..old(state)@
                    })
                    &&& match r {
                        Ok(_) => after.1 is None,
                        Err(e) => after.1 == Some(e@),
                    }
                },
            },
    {
        match state.inflight.take() {
            None => Ok(()),
            Some(mut inflight) => {
                let r = self.absorb_batch_acks(&mut inflight, ring, count);
                state.inflight = Some(inflight);
                r
            },
        }
    }

    /// Brings the batch in flight to its end once every acknowledgement has come.
    pub fn settle_inflight(&mut self, state: &mut EventLoopState, now: u64) -> (r: Option<
        FinishedBatch,
    >)
        requires
            old(state).inflight matches Some(b) ==> b.wf(),
        ensures
            final(self).same_setup(old(self)),
            final(state).inflight matches Some(b) ==> b.wf(),
            (final(self)@, final(state)@) == (match old(state)@.inflight {
                Some(b) => if b.tracker.pending == 0 {
                    finished(old(self)@, old(state)@, now)
                } else {
                    (old(self)@, old(state)@)
                },
                None => (old(self)@, old(state)@),
            }),
            match (r, old(state)@.inflight) {
                (None, None) => true,
                (None, Some(b)) => b.tracker.pending != 0,
                (Some(f), Some(b)) => b.tracker.pending == 0 && finished_as(f, b, now),
                (Some(_), None) => false,
            },
    {
        let done = match &state.inflight {
            Some(inflight) => inflight.tracker.pending() == 0,
            None => false,
        };
        if done {
            self.finish_inflight_batch(state, now)
        } else {
            None
        }
    }
}

/// Reading acknowledgements never changes how many changes are kept track of.
pub proof fn lemma_after_items_keeps_length(
    order: ByteOrder,
    t: Tracker,
    received: Seq<crate::netlink::codec::Item>,
    first_seq: u32,
    batch_len: int,
)
    ensures
        after_items(order, t, received, first_seq, batch_len).0.seen.len() == t.seen.len(),
    decreases received.len(),
{
    if received.len() > 0 {
        lemma_after_items_keeps_length(order, t, received.drop_last(), first_seq, batch_len);
    }
}

// ---------------------------------------------------------------------------
// Deadlines
// ---------------------------------------------------------------------------

/// Whether a deadline is there and has come.
pub open spec fn has_come(deadline: Option<u128>, now: u64) -> bool {
    deadline matches Some(d) && now >= d
}

/// Whether the pending changes are to be flushed now.
pub open spec fn flush_due(s: State, now: u64, force: bool) -> bool {
    s.pending.dom() != Set::<IpKey>::empty() && (force || has_come(s.quiet_deadline, now)
        || has_come(s.max_deadline, now))
}

/// Whether the pending changes are to be flushed now.
pub fn should_flush_pending(state: &EventLoopState, now: u64, force: bool) -> (r: bool)
    ensures
        r == flush_due(state@, now, force),
{
    if state.pending.is_empty() {
        return false;
    }
    if force {
        return true;
    }
    if let Some(deadline) = state.quiet_deadline {
        if now as u128 >= deadline {
            return true;
        }
    }
    if let Some(deadline) = state.max_deadline {
        if now as u128 >= deadline {
            return true;
        }
    }
    false
}

/// The earlier of a deadline that may be missing and one that is there.
pub open spec fn earlier(deadline: Option<u128>, value: u128) -> Option<u128> {
    match deadline {
        Some(d) => if value < d {
            Some(value)
        } else {
            Some(d)
        },
        None => Some(value),
    }
}

/// Moves a deadline forward where the other one is earlier.
pub fn min_deadline(deadline: &mut Option<u128>, value: u128)
    ensures
        *final(deadline) == earlier(*old(deadline), value),
{
    match *deadline {
        Some(current) => if value < current {
            *deadline = Some(value);
        },
        None => {
            *deadline = Some(value);
        },
    }
}

/// Whether there is work that only waits for its turn.
pub open spec fn has_work(s: State) -> bool {
    ||| s.maintenance != MaintenanceJob::Idle
    ||| s.resync_requested && s.inflight is None
    ||| s.shutdown_requested && !s.shutdown_cleanup_done && s.inflight is None
}

/// The points in time at which something is to be done.
pub open spec fn is_deadline(s: State, now: u64, d: u128) -> bool {
    ||| s.quiet_deadline == Some(d)
    ||| s.max_deadline == Some(d)
    ||| s.inflight matches Some(b) && b.ack_deadline == d
    ||| has_work(s) && d == now + NANOS_PER_MILLI
    ||| s.startup_cleanup_pending && s.inflight is None && (match s.startup_cleanup_retry_deadline {
        Some(retry) => d == retry,
        None => d == now + NANOS_PER_MILLI,
    })
}

/// When the daemon is to be woken at the latest: the first of the points in time at which
/// something is to be done; `None` where there is none.
pub fn next_deadline(state: &EventLoopState, now: u64) -> (r: Option<u128>)
    ensures
        match r {
            Some(d) => is_deadline(state@, now, d) && forall|e: u128|
                is_deadline(state@, now, e) ==> d <= e,
            None => forall|e: u128| !is_deadline(state@, now, e),
        },
{
    let mut deadline: Option<u128> = None;
    if let Some(v) = state.quiet_deadline {
        min_deadline(&mut deadline, v);
    }
    if let Some(v) = state.max_deadline {
        min_deadline(&mut deadline, v);
    }
    if let Some(inflight) = &state.inflight {
        min_deadline(&mut deadline, inflight.ack_deadline);
    }
    let soon: u128 = now as u128 + 1_000_000;
    if state.maintenance != MaintenanceJob::Idle {
        min_deadline(&mut deadline, soon);
    }
    if state.resync_requested && state.inflight.is_none() {
        min_deadline(&mut deadline, soon);
    }
    if state.shutdown_requested && !state.shutdown_cleanup_done && state.inflight.is_none() {
        min_deadline(&mut deadline, soon);
    }
    if state.startup_cleanup_pending && state.inflight.is_none() {
        let v: u128 = match state.startup_cleanup_retry_deadline {
            Some(retry) => retry,
            None => soon,
        };
        min_deadline(&mut deadline, v);
    }
    deadline
}

} // verus!
