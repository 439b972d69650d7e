//! Cleaning up in one go, with every batch waited for.
use crate::daemon::batch_apply::{
    batch_result, next_batch_id, next_id, owned_after, tally, tally_counts_every_change,
};
use crate::daemon::resync_plan::deletions;
use crate::daemon::state::{
    no_summary, op_view, ops_view, ApplyResult, Batch, CleanupSummary, Core, Daemon,
    EventLoopState, Inflight, InflightBatch, InflightOwner, KeyOp, OutboundBatch,
};
use crate::error::{AppError, ErrorView};
use crate::ip_key::IpKey;
use crate::ip_set::IpSet;
use crate::netlink::codec::{seq_after, seq_norm, CLEANUP_BATCH_SIZE};
use crate::netlink::rule::{
    classify_wait_error, start_apply_rules_batch, wait_error, wait_error_text, AckWaitError,
    RuleAction, RuleOp, Tracker,
};
use crate::sys::{AF_INET, AF_INET6};
use vstd::prelude::*;

verus! {

/// A cleanup under way: the rules that wait to be deleted, and what became of the others.
pub struct CleanupRun {
    pub batch_size: usize,
    pub batch_id: u64,
    pub chunk: Vec<RuleOp>,
    pub summary: CleanupSummary,
}

/// A `CleanupRun` with its addresses as keys.
pub struct Run {
    pub batch_size: int,
    pub batch_id: u64,
    pub chunk: Seq<KeyOp>,
    pub summary: CleanupSummary,
}

impl View for CleanupRun {
    type V = Run;

    open spec fn view(&self) -> Run {
        Run {
            batch_size: self.batch_size as int,
            batch_id: self.batch_id,
            chunk: ops_view(self.chunk@),
            summary: self.summary,
        }
    }
}

/// A batch of a cleanup that is to be applied now.
pub struct CleanupBatch {
    pub batch_id: u64,
    pub ops: Vec<RuleOp>,
}

/// The number and the changes of an optional batch.
pub open spec fn cleanup_batch_view(b: Option<CleanupBatch>) -> Option<(u64, Seq<KeyOp>)> {
    match b {
        Some(b) => Some((b.batch_id, ops_view(b.ops@))),
        None => None,
    }
}

/// The run after one more rule, and the batch that is full with it.
pub open spec fn with_target(run: Run, op: KeyOp) -> (Run, Option<(u64, Seq<KeyOp>)>) {
    let chunk = run.chunk.push(op);
    if chunk.len() >= run.batch_size {
        (
            Run { chunk: Seq::empty(), batch_id: next_id(run.batch_id), ..run },
            Some((next_id(run.batch_id), chunk)),
        )
    } else {
        (Run { chunk, ..run }, None)
    }
}

/// The run at its end, and the batch with what is left.
pub open spec fn at_end(run: Run) -> (Run, Option<(u64, Seq<KeyOp>)>) {
    if run.chunk.len() == 0 {
        (run, None)
    } else {
        (
            Run { chunk: Seq::empty(), batch_id: next_id(run.batch_id), ..run },
            Some((next_id(run.batch_id), run.chunk)),
        )
    }
}

/// A summary with what became of one more batch.
pub open spec fn absorbed(summary: CleanupSummary, result: ApplyResult) -> CleanupSummary {
    CleanupSummary {
        removed: (summary.removed + result.deleted) as u128,
        noop: (summary.noop + result.noop) as u128,
        failed: (summary.failed + result.failed) as u128,
    }
}

/// The greater of what a batch may hold and what a cleanup batch holds at least.
pub open spec fn cleanup_batch_size(batch_max: usize) -> usize {
    if batch_max > CLEANUP_BATCH_SIZE {
        batch_max
    } else {
        CLEANUP_BATCH_SIZE
    }
}

impl CleanupRun {
    /// A run that has met no rule yet.
    pub fn new(batch_max: usize) -> (r: Self)
        ensures
            r@ == (Run {
                batch_size: cleanup_batch_size(batch_max) as int,
                batch_id: 0,
                chunk: Seq::empty(),
                summary: no_summary(),
            }),
    {
        let batch_size: usize = if batch_max > CLEANUP_BATCH_SIZE {
            batch_max
        } else {
            CLEANUP_BATCH_SIZE
        };
        let r = CleanupRun {
            batch_size,
            batch_id: 0,
            chunk: Vec::new(),
            summary: CleanupSummary::default(),
        };
        assert(r@.chunk =~= Seq::<KeyOp>::empty());
        r
    }

    /// Takes out what waits to be deleted.
    fn take_chunk(&mut self) -> (r: CleanupBatch)
        ensures
            r.batch_id == next_id(old(self).batch_id),
            r.ops@ == old(self).chunk@,
            final(self)@ == (Run {
                chunk: Seq::empty(),
                batch_id: next_id(old(self).batch_id),
                ..old(self)@
            }),
    {
        let mut ops: Vec<RuleOp> = Vec::new();
        core::mem::swap(&mut ops, &mut self.chunk);
        self.batch_id = next_batch_id(self.batch_id);
        assert(self@.chunk =~= Seq::<KeyOp>::empty());
        CleanupBatch { batch_id: self.batch_id, ops }
    }

    /// Takes one more rule to delete, and hands a batch out where it is full.
    pub fn push(&mut self, target: RuleOp) -> (r: Option<CleanupBatch>)
        ensures
            (final(self)@, cleanup_batch_view(r)) == with_target(old(self)@, op_view(target)),
    {
        self.chunk.push(target);
        assert(self@.chunk =~= old(self)@.chunk.push(op_view(target)));
        if self.chunk.len() >= self.batch_size {
            Some(self.take_chunk())
        } else {
            None
        }
    }

    /// Hands out what is left.
    pub fn finish(&mut self) -> (r: Option<CleanupBatch>)
        ensures
            (final(self)@, cleanup_batch_view(r)) == at_end(old(self)@),
    {
        assert(self@.chunk.len() == self.chunk@.len());
        if self.chunk.len() == 0 {
            return None;
        }
        Some(self.take_chunk())
    }

    /// Adds what became of a batch.
    pub fn absorb(&mut self, result: ApplyResult)
        requires
            old(self).summary.removed + result.deleted <= u128::MAX,
            old(self).summary.noop + result.noop <= u128::MAX,
            old(self).summary.failed + result.failed <= u128::MAX,
        ensures
            final(self)@ == (Run { summary: absorbed(old(self).summary, result), ..old(self)@ }),
    {
        self.summary =
        CleanupSummary {
            removed: self.summary.removed + result.deleted as u128,
            noop: self.summary.noop + result.noop as u128,
            failed: self.summary.failed + result.failed as u128,
        };
    }
}

/// The batches that come of pushing rules one after the other, and the run after them.
pub open spec fn pushed(run: Run, ops: Seq<KeyOp>) -> (Run, Seq<(u64, Seq<KeyOp>)>)
    decreases ops.len(),
{
    if ops.len() == 0 {
        (run, Seq::empty())
    } else {
        let (before, batches) = pushed(run, ops.drop_last());
        let (after, batch) = with_target(before, ops.last());
        match batch {
            Some(b) => (after, batches.push(b)),
            None => (after, batches),
        }
    }
}

/// The changes of batches, one after the other.
pub open spec fn all_ops(batches: Seq<(u64, Seq<KeyOp>)>) -> Seq<KeyOp>
    decreases batches.len(),
{
    if batches.len() == 0 {
        Seq::empty()
    } else {
        all_ops(batches.drop_last()) + batches.last().1
    }
}

/// Every rule that is pushed is in exactly one batch, or waits for the last one, in the order in
/// which they were pushed; and every batch that was handed out is full.
pub proof fn pushed_rules_are_kept(run: Run, ops: Seq<KeyOp>)
    requires
        run.chunk.len() == 0,
        run.batch_size >= 1,
    ensures
        all_ops(pushed(run, ops).1) + pushed(run, ops).0.chunk == ops,
        pushed(run, ops).0.chunk.len() < run.batch_size,
        pushed(run, ops).0.batch_size == run.batch_size,
        forall|i: int|
            0 <= i < pushed(run, ops).1.len() ==> (#[trigger] pushed(run, ops).1[i]).1.len()
                == run.batch_size,
    decreases ops.len(),
{
    if ops.len() == 0 {
        assert(all_ops(pushed(run, ops).1) + pushed(run, ops).0.chunk =~= ops);
    } else {
        let init = ops.drop_last();
        pushed_rules_are_kept(run, init);
        let (before, batches) = pushed(run, init);
        let chunk = before.chunk.push(ops.last());
        assert(all_ops(batches) + chunk =~= (all_ops(batches) + before.chunk).push(ops.last()));
        assert(init.push(ops.last()) =~= ops);
        if chunk.len() >= run.batch_size {
            let more = batches.push((next_id(before.batch_id), chunk));
            assert(more.drop_last() =~= batches);
            assert(all_ops(more) + Seq::<KeyOp>::empty() =~= all_ops(batches) + chunk);
        }
    }
}

/// All batches of a run over the rules, the one with what is left at its end included.
pub open spec fn run_batches(run: Run, ops: Seq<KeyOp>) -> Seq<(u64, Seq<KeyOp>)> {
    let (after, batches) = pushed(run, ops);
    match at_end(after).1 {
        Some(b) => batches.push(b),
        None => batches,
    }
}

/// The batches of a run with what became of each, and the time at which it came to its end.
pub open spec fn are_done(batches: Seq<(u64, Seq<KeyOp>)>, done: Seq<(Inflight, u64)>) -> bool {
    &&& done.len() == batches.len()
    &&& forall|i: int|
        0 <= i < done.len() ==> (#[trigger] done[i]).0.batch.ops == batches[i].1
            && done[i].0.batch.noop_prefilter == 0
}

/// The summary after the batches.
pub open spec fn run_summary(done: Seq<(Inflight, u64)>) -> CleanupSummary
    decreases done.len(),
{
    if done.len() == 0 {
        no_summary()
    } else {
        absorbed(run_summary(done.drop_last()), batch_result(done.last().0, done.last().1))
    }
}

/// The rules that are owned after the batches.
pub open spec fn run_owned(owned: Set<IpKey>, done: Seq<(Inflight, u64)>) -> Set<IpKey>
    decreases done.len(),
{
    if done.len() == 0 {
        owned
    } else {
        owned_after(
            run_owned(owned, done.drop_last()),
            done.last().0.batch.ops,
            done.last().0.tracker,
        )
    }
}

/// How many of the first `n` messages of a batch were acknowledged without an error.
pub open spec fn accepted_acks(t: Tracker, n: nat) -> nat
    decreases n,
{
    if n == 0 {
        0
    } else {
        let i = n - 1;
        accepted_acks(t, i as nat) + if 0 <= i < t.seen.len() && t.seen[i] && t.status[i] is None {
            1nat
        } else {
            0nat
        }
    }
}

/// How many messages of all batches were acknowledged without an error.
pub open spec fn run_accepted(done: Seq<(Inflight, u64)>) -> nat
    decreases done.len(),
{
    if done.len() == 0 {
        0
    } else {
        run_accepted(done.drop_last()) + accepted_acks(
            done.last().0.tracker,
            done.last().0.batch.ops.len(),
        )
    }
}

/// Whether all changes are deletions.
pub open spec fn only_deletions(ops: Seq<KeyOp>) -> bool {
    forall|i: int| 0 <= i < ops.len() ==> (#[trigger] ops[i]).action == RuleAction::Delete
}

/// In a batch of deletions, those that were made are the ones acknowledged without an error, none
/// is counted as an addition, and no rule becomes owned.
proof fn lemma_deletions_done(ops: Seq<KeyOp>, t: Tracker, owned: Set<IpKey>)
    requires
        only_deletions(ops),
    ensures
        tally(ops, t).deleted == accepted_acks(t, ops.len()),
        tally(ops, t).added == 0,
        owned_after(owned, ops, t).subset_of(owned),
    decreases ops.len(),
{
    if ops.len() > 0 {
        assert(ops.last() == ops[ops.len() - 1]);
        lemma_deletions_done(ops.drop_last(), t, owned);
    }
}

/// What is true of all changes is true of those of each batch.
proof fn lemma_all_ops_parts(batches: Seq<(u64, Seq<KeyOp>)>)
    requires
        only_deletions(all_ops(batches)),
    ensures
        forall|i: int| 0 <= i < batches.len() ==> only_deletions((#[trigger] batches[i]).1),
    decreases batches.len(),
{
    if batches.len() > 0 {
        let front = batches.drop_last();
        let all = all_ops(batches);
        assert forall|i: int| 0 <= i < all_ops(front).len() implies (#[trigger] all_ops(
            front,
        )[i]).action == RuleAction::Delete by {
            assert(all[i] == all_ops(front)[i]);
        }
        lemma_all_ops_parts(front);
        let last = batches.last().1;
        assert forall|i: int| 0 <= i < last.len() implies (#[trigger] last[i]).action
            == RuleAction::Delete by {
            assert(all[all_ops(front).len() + i] == last[i]);
        }
        assert forall|i: int| 0 <= i < batches.len() implies only_deletions(
            (#[trigger] batches[i]).1,
        ) by {
            if i < front.len() {
                assert(front[i] == batches[i]);
            }
        }
    }
}

/// What batches of deletions come to.
proof fn lemma_run_counts(
    batches: Seq<(u64, Seq<KeyOp>)>,
    done: Seq<(Inflight, u64)>,
    owned: Set<IpKey>,
)
    requires
        are_done(batches, done),
        only_deletions(all_ops(batches)),
        all_ops(batches).len() <= usize::MAX,
    ensures
        run_summary(done).removed == run_accepted(done),
        run_summary(done).removed + run_summary(done).noop + run_summary(done).failed == all_ops(
            batches,
        ).len(),
        run_owned(owned, done).subset_of(owned),
    decreases batches.len(),
{
    lemma_all_ops_parts(batches);
    if batches.len() > 0 {
        let front = batches.drop_last();
        let before = done.drop_last();
        let b = done.last().0;
        assert(done[done.len() - 1].0.batch.ops == batches[batches.len() - 1].1);
        assert forall|i: int| 0 <= i < before.len() implies (#[trigger] before[i]).0.batch.ops
            == front[i].1 && before[i].0.batch.noop_prefilter == 0 by {
            assert(done[i].0.batch.ops == batches[i].1);
        }
        assert forall|i: int| 0 <= i < all_ops(front).len() implies (#[trigger] all_ops(
            front,
        )[i]).action == RuleAction::Delete by {
            assert(all_ops(batches)[i] == all_ops(front)[i]);
        }
        lemma_run_counts(front, before, owned);
        assert(only_deletions(batches[batches.len() - 1].1));
        lemma_deletions_done(b.batch.ops, b.tracker, run_owned(owned, before));
        tally_counts_every_change(b.batch.ops, b.tracker);
    }
}

/// A whole cleanup: over all batches of a run, every rule is in exactly one batch, as many rules
/// are counted as removed as deletions were acknowledged without an error, every other one is
/// counted as gone already or as failed, and no rule becomes owned; where none was owned at the
/// start, none is at the end.
pub proof fn cleanup_run_counts_every_deletion(
    run: Run,
    keys: Seq<IpKey>,
    done: Seq<(Inflight, u64)>,
    owned: Set<IpKey>,
)
    requires
        run.chunk.len() == 0,
        run.batch_size >= 1,
        keys.len() <= usize::MAX,
        are_done(run_batches(run, deletions(keys)), done),
    ensures
        all_ops(run_batches(run, deletions(keys))) == deletions(keys),
        run_summary(done).removed == run_accepted(done),
        run_summary(done).removed + run_summary(done).noop + run_summary(done).failed
            == keys.len(),
        run_owned(owned, done).subset_of(owned),
        owned == Set::<IpKey>::empty() ==> run_owned(owned, done) == Set::<IpKey>::empty(),
{
    let ops = deletions(keys);
    let (after, batches) = pushed(run, ops);
    let all = run_batches(run, ops);
    pushed_rules_are_kept(run, ops);
    if after.chunk.len() > 0 {
        assert(all.drop_last() =~= batches);
    } else {
        assert(all_ops(batches) + after.chunk =~= all_ops(batches));
    }
    assert(only_deletions(all_ops(all)));
    lemma_run_counts(all, done, owned);
    if owned == Set::<IpKey>::empty() {
        assert(run_owned(owned, done) =~= Set::<IpKey>::empty());
    }
}

/// The families whose rules a cleanup from a dump looks for, in order.
pub fn cleanup_families(ipv6_enabled: bool) -> (r: Vec<i32>)
    ensures
        r@ == (if ipv6_enabled {
            seq![AF_INET, AF_INET6]
        } else {
            seq![AF_INET]
        }),
        r@[0] == 2,
        r@.contains(10i32) <==> ipv6_enabled,
{
    let mut r: Vec<i32> = Vec::new();
    r.push(AF_INET);
    if ipv6_enabled {
        r.push(AF_INET6);
    }
    assert(r@ =~= if ipv6_enabled {
        seq![AF_INET, AF_INET6]
    } else {
        seq![AF_INET]
    });
    r
}

/// The deletion of the rule for a key.
pub fn deletion(key: IpKey) -> (r: RuleOp)
    ensures
        op_view(r) == (KeyOp { key, action: RuleAction::Delete }),
{
    RuleOp { addr: key.into_ip(), action: RuleAction::Delete }
}

/// How the wait for the acknowledgements of a batch goes on.
#[derive(Debug, Clone, Copy, PartialEq, Eq, Structural)]
pub enum AckWait {
    /// All have come.
    Settled,
    /// Some are still to come.
    Wait,
}

/// How the wait goes on once everything that there was to read has been read.
pub fn ack_wait(inflight: &InflightBatch) -> (r: AckWait)
    ensures
        r == (if inflight@.tracker.pending == 0 {
            AckWait::Settled
        } else {
            AckWait::Wait
        }),
{
    if inflight.tracker.pending() == 0 {
        AckWait::Settled
    } else {
        AckWait::Wait
    }
}

/// Goes on with a batch after a wait, or gives it up where nothing came in time.
pub fn after_ack_wait(inflight: &InflightBatch, readable: bool) -> (r: Result<(), AppError>)
    ensures
        r is Ok <==> readable,
        r matches Err(e) ==> e@ == ErrorView::Netlink(
            wait_error_text(
                AckWaitError {
                    kind: wait_error(inflight@.tracker),
                    pending: inflight.tracker.pending,
                    count_seq_mismatch: inflight.tracker.count_seq_mismatch,
                    count_non_ack: inflight.tracker.count_non_ack,
                },
            ),
        ),
{
    if readable {
        Ok(())
    } else {
        Err(classify_wait_error(&inflight.tracker).to_app_error())
    }
}

impl Daemon {
    /// Gives up all rules that are owned, and lists the deletion of each, in an order that is
    /// left open.
    pub fn take_owned(&mut self) -> (r: Vec<RuleOp>)
        ensures
            final(self).same_setup(old(self)),
            final(self)@ == (Core { owned: Set::empty(), ..old(self)@ }),
            exists|keys: Seq<IpKey>|
                keys.no_duplicates() && keys.to_set() == old(self)@.owned && ops_view(r@)
                    == #[trigger] deletions(keys),
    {
        let keys = self.owned_ips.keys();
        self.owned_ips = IpSet::new();
        let mut out: Vec<RuleOp> = Vec::new();
        for i in 0..keys.len()
            invariant
                out@.len() == i,
                forall|j: int|
                    0 <= j < i ==> op_view(#[trigger] out@[j]) == (KeyOp {
                        key: keys@[j],
                        action: RuleAction::Delete,
                    }),
        {
            out.push(deletion(keys[i]));
        }
        assert(ops_view(out@) =~= deletions(keys@));
        out
    }

    /// Makes a batch that is waited for; `None` where there is nothing to do.
    pub fn start_blocking_batch(&mut self, batch: CleanupBatch) -> (r: Option<OutboundBatch>)
        ensures
            final(self).same_setup(old(self)),
            r is None <==> batch.ops@.len() == 0,
            r is None ==> final(self)@ == old(self)@,
            r matches Some(b) ==> {
                &&& b.wf(old(self).order, old(self).rule_ctx)
                &&& final(self)@ == (Core {
                    next_seq: seq_after(old(self)@.next_seq, batch.ops@.len() as int) as u32,
                    ..old(self)@
                })
                &&& b@ == (Batch {
                    batch_id: batch.batch_id,
                    first_seq: seq_norm(old(self)@.next_seq) as u32,
                    ops: ops_view(batch.ops@),
                    input_count: batch.ops@.len() as int,
                    noop_prefilter: 0,
                    owner: InflightOwner::Maintenance,
                })
            },
    {
        if batch.ops.len() == 0 {
            return None;
        }
        let input_count: usize = batch.ops.len();
        let built = start_apply_rules_batch(
            self.order,
            &mut self.next_seq,
            self.rule_ctx,
            batch.ops.as_slice(),
        );
        Some(
            OutboundBatch {
                batch_id: batch.batch_id,
                first_seq: built.first_seq,
                messages: built.messages,
                ops: batch.ops,
                input_count,
                noop_prefilter: 0,
                owner: InflightOwner::Maintenance,
            },
        )
    }
}

// ---------------------------------------------------------------------------
// The end of the daemon
// ---------------------------------------------------------------------------

/// What is left to clean up once the event loop has ended.
#[derive(Debug, Clone, Copy, PartialEq, Eq, Structural)]
pub enum AfterLoop {
    /// Nothing: that many rules were removed.
    Clean(u128),
    /// The rules that are owned.
    CleanOwned,
}

/// Tells what is left to clean up once the event loop has ended.
pub fn after_loop(state: &EventLoopState) -> (r: AfterLoop)
    ensures
        r == (if state@.shutdown_cleanup_done {
            AfterLoop::Clean(state@.shutdown_cleanup.removed)
        } else {
            AfterLoop::CleanOwned
        }),
{
    if state.shutdown_cleanup_done {
        AfterLoop::Clean(state.shutdown_cleanup.removed)
    } else {
        AfterLoop::CleanOwned
    }
}

/// What the daemon ends with: an error of the last cleanup comes before one of the event loop.
pub fn run_result(cleanup: Result<u128, AppError>, loop_result: Result<(), AppError>) -> (r:
    Result<(), AppError>)
    ensures
        match cleanup {
            Err(e) => r == Err::<(), AppError>(e),
            Ok(_) => r == loop_result,
        },
{
    match cleanup {
        Err(e) => Err(e),
        Ok(_) => loop_result,
    }
}

} // verus!
