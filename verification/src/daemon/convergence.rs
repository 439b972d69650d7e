//! Where the daemon leads to: the rules that are there once its changes were made.
use crate::daemon::batch_apply::{effective, is_noop, outcome_at, owned_after, pending_ops};
use crate::daemon::maintenance::{
    budget_after, chunk_size, step, taken_over, Limits, MaintenanceReport,
};
use crate::daemon::resync_plan::{
    chunk_end, chunks_join, cleanup_chunk, cleanup_chunks_cover_all, deletions, diff, Diff,
};
use crate::daemon::state::{waiting_for, Core, KeyOp, MaintenanceJob, State};
use crate::ip_key::{key_lt, key_order_is_total, IpKey};
use crate::ip_set::{ascending, sorted, sorted_lists_its_set};
use crate::netlink::rule::{RuleAction, Tracker};
use vstd::prelude::*;

verus! {

/// The rules after one change.
pub open spec fn changed(rules: Set<IpKey>, op: KeyOp) -> Set<IpKey> {
    match op.action {
        RuleAction::Add => rules.insert(op.key),
        RuleAction::Delete => rules.remove(op.key),
    }
}

/// The rules after changes, one after the other.
pub open spec fn applied(rules: Set<IpKey>, ops: Seq<KeyOp>) -> Set<IpKey>
    decreases ops.len(),
{
    if ops.len() == 0 {
        rules
    } else {
        changed(applied(rules, ops.drop_last()), ops.last())
    }
}

/// Changes in two parts are made one part after the other.
proof fn lemma_applied_parts(rules: Set<IpKey>, a: Seq<KeyOp>, b: Seq<KeyOp>)
    ensures
        applied(rules, a + b) == applied(applied(rules, a), b),
    decreases b.len(),
{
    if b.len() == 0 {
        assert(a + b =~= a);
    } else {
        assert((a + b).drop_last() =~= a + b.drop_last());
        assert((a + b).last() == b.last());
        lemma_applied_parts(rules, a, b.drop_last());
    }
}

/// One change alone.
proof fn lemma_applied_one(rules: Set<IpKey>, op: KeyOp)
    ensures
        applied(rules, seq![op]) == changed(rules, op),
{
    let front = seq![op].drop_last();
    assert(front =~= Seq::<KeyOp>::empty());
    assert(applied(rules, front) == rules);
    assert(seq![op].last() == op);
}

/// Where every change of a batch was made, the rules that are owned are those that the changes
/// lead to.
pub proof fn acknowledged_batch_is_applied(owned: Set<IpKey>, ops: Seq<KeyOp>, t: Tracker)
    requires
        forall|i: int| 0 <= i < ops.len() ==> #[trigger] outcome_at(ops[i], t, i) is Applied,
    ensures
        owned_after(owned, ops, t) == applied(owned, ops),
    decreases ops.len(),
{
    if ops.len() > 0 {
        let front = ops.drop_last();
        assert forall|i: int| 0 <= i < front.len() implies #[trigger] outcome_at(
            front[i],
            t,
            i,
        ) is Applied by {
            assert(outcome_at(ops[i], t, i) is Applied);
        }
        acknowledged_batch_is_applied(owned, front, t);
        assert(outcome_at(ops[ops.len() - 1], t, ops.len() - 1) is Applied);
    }
}

// ---------------------------------------------------------------------------
// Resynchronisation
// ---------------------------------------------------------------------------

/// The sum of the sizes.
pub open spec fn total(sizes: Seq<int>) -> int
    decreases sizes.len(),
{
    if sizes.len() == 0 {
        0
    } else {
        total(sizes.drop_last()) + sizes.last()
    }
}

/// The changes of a resynchronisation in chunks of the given sizes, and how far they have come.
pub open spec fn in_chunks(target: Seq<IpKey>, current: Seq<IpKey>, sizes: Seq<int>) -> Diff
    decreases sizes.len(),
{
    if sizes.len() == 0 {
        Diff { ops: Seq::empty(), target_idx: 0, current_idx: 0 }
    } else {
        let before = in_chunks(target, current, sizes.drop_last());
        let chunk = diff(
            target,
            current,
            before.target_idx,
            before.current_idx,
            sizes.last(),
        );
        Diff { ops: before.ops + chunk.ops, ..chunk }
    }
}

/// However the changes are cut into chunks, they are those of one large chunk.
proof fn lemma_in_chunks(target: Seq<IpKey>, current: Seq<IpKey>, sizes: Seq<int>)
    requires
        forall|i: int| 0 <= i < sizes.len() ==> #[trigger] sizes[i] > 0,
    ensures
        total(sizes) >= 0,
        in_chunks(target, current, sizes) == diff(target, current, 0, 0, total(sizes)),
    decreases sizes.len(),
{
    if sizes.len() == 0 {
        assert(in_chunks(target, current, sizes).ops =~= diff(target, current, 0, 0, 0).ops);
    } else {
        let front = sizes.drop_last();
        assert forall|i: int| 0 <= i < front.len() implies #[trigger] front[i] > 0 by {
            assert(sizes[i] > 0);
        }
        lemma_in_chunks(target, current, front);
        assert(sizes[sizes.len() - 1] > 0);
        chunks_join(target, current, 0, 0, total(front), sizes.last());
    }
}

/// The keys of `target` before place `i`, and those of `current` from place `j` on.
pub open spec fn midway(target: Seq<IpKey>, current: Seq<IpKey>, i: int, j: int) -> Set<IpKey> {
    target.subrange(0, i).to_set().union(current.subrange(j, current.len() as int).to_set())
}

/// Whether a key is there midway.
proof fn lemma_midway(target: Seq<IpKey>, current: Seq<IpKey>, i: int, j: int, k: IpKey)
    requires
        0 <= i <= target.len(),
        0 <= j <= current.len(),
    ensures
        midway(target, current, i, j).contains(k) <==> ((exists|a: int|
            0 <= a < i && target[a] == k) || (exists|b: int| j <= b < current.len() && current[b]
            == k)),
{
    let done = target.subrange(0, i);
    let rest = current.subrange(j, current.len() as int);
    if exists|a: int| 0 <= a < i && target[a] == k {
        let a = choose|a: int| 0 <= a < i && target[a] == k;
        assert(done[a] == k);
    }
    if exists|b: int| j <= b < current.len() && current[b] == k {
        let b = choose|b: int| j <= b < current.len() && current[b] == k;
        assert(rest[b - j] == k);
    }
    if done.to_set().contains(k) {
        let a = choose|a: int| 0 <= a < done.len() && done[a] == k;
        assert(target[a] == k);
    }
    if rest.to_set().contains(k) {
        let b = choose|b: int| 0 <= b < rest.len() && rest[b] == k;
        assert(current[b + j] == k);
    }
}

/// What one step of the comparison leads to.
proof fn lemma_midway_step(target: Seq<IpKey>, current: Seq<IpKey>, i: int, j: int)
    requires
        ascending(target),
        ascending(current),
        0 <= i <= target.len(),
        0 <= j <= current.len(),
        forall|a: int| 0 <= a < i && j < current.len() ==> key_lt(target[a], current[j]),
    ensures
        i < target.len() && j < current.len() && target[i] == current[j] ==> midway(
            target,
            current,
            i + 1,
            j + 1,
        ) == midway(target, current, i, j),
        i < target.len() ==> midway(target, current, i + 1, j) == midway(
            target,
            current,
            i,
            j,
        ).insert(target[i]),
        j < current.len() ==> midway(target, current, i, j + 1) == midway(
            target,
            current,
            i,
            j,
        ).remove(current[j]),
{
    let here = midway(target, current, i, j);
    if i < target.len() {
        let next = midway(target, current, i + 1, j);
        assert forall|k: IpKey| next.contains(k) == here.insert(target[i]).contains(k) by {
            lemma_midway(target, current, i, j, k);
            lemma_midway(target, current, i + 1, j, k);
        }
        assert(next =~= here.insert(target[i]));
    }
    if j < current.len() {
        let next = midway(target, current, i, j + 1);
        assert forall|k: IpKey| next.contains(k) == here.remove(current[j]).contains(k) by {
            lemma_midway(target, current, i, j, k);
            lemma_midway(target, current, i, j + 1, k);
            if next.contains(k) && k == current[j] {
                if exists|a: int| 0 <= a < i && target[a] == k {
                    let a = choose|a: int| 0 <= a < i && target[a] == k;
                    key_order_is_total(target[a], current[j], k);
                } else {
                    let b = choose|b: int| j + 1 <= b < current.len() && current[b] == k;
                    assert(key_lt(current[j], current[b]));
                    key_order_is_total(current[j], current[b], k);
                }
            }
        }
        assert(next =~= here.remove(current[j]));
    }
    if i < target.len() && j < current.len() && target[i] == current[j] {
        let next = midway(target, current, i + 1, j + 1);
        assert forall|k: IpKey| next.contains(k) == here.contains(k) by {
            lemma_midway(target, current, i, j, k);
            lemma_midway(target, current, i + 1, j + 1, k);
        }
        assert(next =~= here);
    }
}

/// Changes lead from one point of the comparison to the point that they have come to.
proof fn lemma_diff_leads(target: Seq<IpKey>, current: Seq<IpKey>, i: int, j: int, max_ops: int)
    requires
        ascending(target),
        ascending(current),
        0 <= i <= target.len(),
        0 <= j <= current.len(),
        forall|a: int| 0 <= a < i && j < current.len() ==> key_lt(target[a], current[j]),
    ensures
        ({
            let d = diff(target, current, i, j, max_ops);
            &&& 0 <= d.target_idx <= target.len()
            &&& 0 <= d.current_idx <= current.len()
            &&& applied(midway(target, current, i, j), d.ops) == midway(
                target,
                current,
                d.target_idx,
                d.current_idx,
            )
        }),
    decreases target.len() - i + current.len() - j,
{
    let here = midway(target, current, i, j);
    if max_ops <= 0 || (i == target.len() && j == current.len()) {
    } else {
        lemma_midway_step(target, current, i, j);
        if i < target.len() && j < current.len() && target[i] == current[j] {
            assert forall|a: int| 0 <= a < i + 1 && j + 1 < current.len() implies key_lt(
                target[a],
                current[j + 1],
            ) by {
                assert(key_lt(current[j], current[j + 1]));
                if a < i {
                    key_order_is_total(target[a], current[j], current[j + 1]);
                }
            }
            lemma_diff_leads(target, current, i + 1, j + 1, max_ops);
        } else if i < target.len() && (j == current.len() || key_lt(target[i], current[j])) {
            lemma_diff_leads(target, current, i + 1, j, max_ops - 1);
            let op = KeyOp { key: target[i], action: RuleAction::Add };
            let rest = diff(target, current, i + 1, j, max_ops - 1);
            lemma_applied_parts(here, seq![op], rest.ops);
            lemma_applied_one(here, op);
        } else {
            assert forall|a: int| 0 <= a < i && j + 1 < current.len() implies key_lt(
                target[a],
                current[j + 1],
            ) by {
                assert(key_lt(current[j], current[j + 1]));
                key_order_is_total(target[a], current[j], current[j + 1]);
            }
            lemma_diff_leads(target, current, i, j + 1, max_ops - 1);
            let op = KeyOp { key: current[j], action: RuleAction::Delete };
            let rest = diff(target, current, i, j + 1, max_ops - 1);
            lemma_applied_parts(here, seq![op], rest.ops);
            lemma_applied_one(here, op);
        }
    }
}

/// Where no change is left, the comparison has come to its end.
proof fn lemma_diff_ends(target: Seq<IpKey>, current: Seq<IpKey>, i: int, j: int)
    requires
        0 <= i <= target.len(),
        0 <= j <= current.len(),
        diff(target, current, i, j, 1).ops.len() == 0,
    ensures
        target.subrange(i, target.len() as int) == current.subrange(j, current.len() as int),
    decreases target.len() - i + current.len() - j,
{
    if i == target.len() && j == current.len() {
        assert(target.subrange(i, target.len() as int) =~= current.subrange(
            j,
            current.len() as int,
        ));
    } else if i < target.len() && j < current.len() && target[i] == current[j] {
        lemma_diff_ends(target, current, i + 1, j + 1);
        let a = target.subrange(i, target.len() as int);
        let b = current.subrange(j, current.len() as int);
        assert(a =~= seq![target[i]] + target.subrange(i + 1, target.len() as int));
        assert(b =~= seq![current[j]] + current.subrange(j + 1, current.len() as int));
    }
}

/// A resynchronisation reaches its target: once no change is left and every change was made, the
/// rules are exactly those for the target, however the changes were cut into batches.
pub proof fn resync_converges(target: Seq<IpKey>, current: Seq<IpKey>, sizes: Seq<int>)
    requires
        ascending(target),
        ascending(current),
        forall|i: int| 0 <= i < sizes.len() ==> #[trigger] sizes[i] > 0,
        ({
            let d = in_chunks(target, current, sizes);
            diff(target, current, d.target_idx, d.current_idx, 1).ops.len() == 0
        }),
    ensures
        applied(current.to_set(), in_chunks(target, current, sizes).ops) == target.to_set(),
{
    lemma_in_chunks(target, current, sizes);
    let d = diff(target, current, 0, 0, total(sizes));
    lemma_diff_leads(target, current, 0, 0, total(sizes));
    assert(midway(target, current, 0, 0) =~= current.to_set()) by {
        assert(current.subrange(0, current.len() as int) =~= current);
        assert(target.subrange(0, 0).to_set() =~= Set::<IpKey>::empty());
    }
    lemma_diff_ends(target, current, d.target_idx, d.current_idx);
    let i = d.target_idx;
    let j = d.current_idx;
    let there = midway(target, current, i, j);
    assert forall|k: IpKey| there.contains(k) == target.to_set().contains(k) by {
        lemma_midway(target, current, i, j, k);
        let rest = target.subrange(i, target.len() as int);
        if target.contains(k) {
            let a = choose|a: int| 0 <= a < target.len() && target[a] == k;
            if a >= i {
                assert(rest[a - i] == k);
                assert(current[a - i + j] == k);
            }
        }
        if exists|b: int| j <= b < current.len() && current[b] == k {
            let b = choose|b: int| j <= b < current.len() && current[b] == k;
            assert(rest[b - j] == k);
            assert(target[b - j + i] == k);
        }
    }
    assert(there =~= target.to_set());
}

/// Where a larger chunk holds no change, the next change is not there.
proof fn lemma_empty_chunk(target: Seq<IpKey>, current: Seq<IpKey>, i: int, j: int, max_ops: int)
    requires
        max_ops > 0,
        diff(target, current, i, j, max_ops).ops.len() == 0,
    ensures
        diff(target, current, i, j, 1).ops.len() == 0,
    decreases target.len() - i + current.len() - j,
{
    if 0 <= i < target.len() && 0 <= j < current.len() && target[i] == current[j] {
        lemma_empty_chunk(target, current, i + 1, j + 1, max_ops);
    }
}

/// A resynchronisation is reported as done only once no change is left of it.
pub proof fn reported_resync_is_done(
    c: Core,
    s: State,
    budget: usize,
    limits: Limits,
    now: u64,
)
    requires
        step(c, s, budget, limits, now).report matches Some(MaintenanceReport::Resync(_)),
    ensures
        s.maintenance matches MaintenanceJob::ResyncApply { target_idx, current_idx, .. } && diff(
            c.target,
            c.current,
            target_idx as int,
            current_idx as int,
            1,
        ).ops.len() == 0,
{
    if let MaintenanceJob::ResyncApply { target_idx, current_idx, waiting_batch_id, .. } =
        s.maintenance {
        let left = budget_after(budget, taken_over(s, waiting_batch_id));
        lemma_empty_chunk(
            c.target,
            c.current,
            target_idx as int,
            current_idx as int,
            chunk_size(limits.batch_max, left) as int,
        );
    }
}

// ---------------------------------------------------------------------------
// Cleaning up
// ---------------------------------------------------------------------------

/// Once the daemon was asked to stop and nothing is pending, the next job deletes every rule that
/// is owned, each once and in order; where none is owned, it is done at once.
pub proof fn stop_cleans_up_what_is_owned(
    c: Core,
    s: State,
    budget: usize,
    limits: Limits,
    now: u64,
)
    requires
        c.owned.finite(),
        s.maintenance == MaintenanceJob::Idle,
        s.shutdown_requested,
        s.pending.dom() == Set::<IpKey>::empty(),
        !s.shutdown_cleanup_done,
    ensures
        ({
            let r = step(c, s, budget, limits, now);
            &&& r.core.owned == Set::<IpKey>::empty()
            &&& ascending(r.core.leaving)
            &&& r.core.leaving.to_set() == c.owned
            &&& if c.owned == Set::<IpKey>::empty() {
                r.state.shutdown_cleanup_done
            } else {
                r.state.maintenance matches MaintenanceJob::CleanupTracked { offset: 0, .. }
            }
        }),
{
    sorted_lists_its_set(c.owned);
    let keys = sorted(c.owned);
    if keys.len() > 0 {
        assert(keys.to_set().contains(keys[0]));
    } else {
        assert(keys.to_set() =~= Set::<IpKey>::empty());
    }
}

/// The cleanup at the end is reported as done only once its list is worked through.
pub proof fn reported_cleanup_is_done(
    c: Core,
    s: State,
    budget: usize,
    limits: Limits,
    now: u64,
)
    requires
        step(c, s, budget, limits, now).report matches Some(MaintenanceReport::Cleanup(_)),
    ensures
        s.maintenance matches MaintenanceJob::CleanupTracked { offset, .. } && offset
            >= c.leaving.len(),
        step(c, s, budget, limits, now).state.shutdown_cleanup_done,
{
    if let MaintenanceJob::CleanupTracked { offset, .. } = s.maintenance {
        if offset < c.leaving.len() {
            let left = budget_after(budget, taken_over(s, waiting_for(s.maintenance)));
            cleanup_chunks_cover_all(
                c.leaving,
                offset as int,
                chunk_size(limits.batch_max, left) as int,
            );
        }
    }
}

/// The deletions of a cleanup in chunks of the given sizes, and how far they have come.
pub open spec fn cleanup_in_chunks(keys: Seq<IpKey>, sizes: Seq<int>) -> (Seq<KeyOp>, int)
    decreases sizes.len(),
{
    if sizes.len() == 0 {
        (Seq::empty(), 0)
    } else {
        let (ops, offset) = cleanup_in_chunks(keys, sizes.drop_last());
        (
            ops + cleanup_chunk(keys, offset, sizes.last()),
            chunk_end(keys.len() as int, offset, sizes.last()),
        )
    }
}

/// The deletions up to a point are those of the keys before it.
proof fn lemma_cleanup_in_chunks(keys: Seq<IpKey>, sizes: Seq<int>)
    requires
        forall|i: int| 0 <= i < sizes.len() ==> #[trigger] sizes[i] > 0,
    ensures
        0 <= cleanup_in_chunks(keys, sizes).1 <= keys.len(),
        cleanup_in_chunks(keys, sizes).0 == deletions(
            keys.subrange(0, cleanup_in_chunks(keys, sizes).1),
        ),
    decreases sizes.len(),
{
    if sizes.len() == 0 {
        assert(deletions(keys.subrange(0, 0)) =~= Seq::<KeyOp>::empty());
    } else {
        let front = sizes.drop_last();
        assert forall|i: int| 0 <= i < front.len() implies #[trigger] front[i] > 0 by {
            assert(sizes[i] > 0);
        }
        lemma_cleanup_in_chunks(keys, front);
        assert(sizes[sizes.len() - 1] > 0);
        let (ops, offset) = cleanup_in_chunks(keys, front);
        let end = chunk_end(keys.len() as int, offset, sizes.last());
        assert(ops + cleanup_chunk(keys, offset, sizes.last()) =~= deletions(
            keys.subrange(0, end),
        ));
    }
}

/// Deletions leave the rules that they do not name.
proof fn lemma_deletions(rules: Set<IpKey>, keys: Seq<IpKey>)
    ensures
        applied(rules, deletions(keys)) == rules.difference(keys.to_set()),
    decreases keys.len(),
{
    if keys.len() == 0 {
        assert(rules.difference(keys.to_set()) =~= rules);
    } else {
        let front = keys.drop_last();
        lemma_deletions(rules, front);
        assert(deletions(keys).drop_last() =~= deletions(front));
        assert forall|k: IpKey| keys.to_set().contains(k) == (front.to_set().contains(k) || k
            == keys.last()) by {
            if keys.contains(k) {
                let i = choose|i: int| 0 <= i < keys.len() && keys[i] == k;
                if i < front.len() {
                    assert(front[i] == k);
                }
            }
            if front.contains(k) {
                let i = choose|i: int| 0 <= i < front.len() && front[i] == k;
                assert(keys[i] == k);
            }
            assert(keys[keys.len() - 1] == keys.last());
        }
        assert(rules.difference(keys.to_set()) =~= rules.difference(front.to_set()).remove(
            keys.last(),
        ));
    }
}

/// A cleanup removes the rules of all its keys and no other, once it has come to the end of its
/// list and every deletion was made, however they were cut into batches.
pub proof fn cleanup_removes_all(rules: Set<IpKey>, keys: Seq<IpKey>, sizes: Seq<int>)
    requires
        forall|i: int| 0 <= i < sizes.len() ==> #[trigger] sizes[i] > 0,
        cleanup_in_chunks(keys, sizes).1 == keys.len(),
    ensures
        applied(rules, cleanup_in_chunks(keys, sizes).0) == rules.difference(keys.to_set()),
{
    lemma_cleanup_in_chunks(keys, sizes);
    assert(keys.subrange(0, keys.len() as int) =~= keys);
    lemma_deletions(rules, keys);
}

// ---------------------------------------------------------------------------
// Pending changes
// ---------------------------------------------------------------------------

/// Whether no two changes are for the same address.
pub open spec fn distinct_ops(ops: Seq<KeyOp>) -> bool {
    forall|a: int, b: int|
        0 <= a < b < ops.len() ==> (#[trigger] ops[a]).key != (#[trigger] ops[b]).key
}

/// What becomes of a rule under changes for different addresses.
proof fn lemma_applied_at(rules: Set<IpKey>, ops: Seq<KeyOp>, k: IpKey)
    requires
        distinct_ops(ops),
    ensures
        forall|i: int|
            0 <= i < ops.len() && (#[trigger] ops[i]).key == k ==> (applied(rules, ops).contains(k)
                == (ops[i].action == RuleAction::Add)),
        (forall|i: int| 0 <= i < ops.len() ==> (#[trigger] ops[i]).key != k) ==> applied(
            rules,
            ops,
        ).contains(k) == rules.contains(k),
    decreases ops.len(),
{
    if ops.len() > 0 {
        let front = ops.drop_last();
        assert(distinct_ops(front)) by {
            assert forall|a: int, b: int| 0 <= a < b < front.len() implies (
            #[trigger] front[a]).key != (#[trigger] front[b]).key by {
                assert(ops[a].key != ops[b].key);
            }
        }
        lemma_applied_at(rules, front, k);
        assert forall|i: int| 0 <= i < ops.len() && (#[trigger] ops[i]).key == k implies applied(
            rules,
            ops,
        ).contains(k) == (ops[i].action == RuleAction::Add) by {
            if i < front.len() {
                assert(front[i] == ops[i]);
                assert(ops[i].key != ops[ops.len() - 1].key);
            }
        }
        if forall|i: int| 0 <= i < ops.len() ==> (#[trigger] ops[i]).key != k {
            assert forall|i: int| 0 <= i < front.len() implies (#[trigger] front[i]).key != k by {
                assert(ops[i].key != k);
            }
            assert(ops[ops.len() - 1].key != k);
        }
    }
}

/// To leave out changes without effect changes nothing.
proof fn lemma_effective_suffices(rules: Set<IpKey>, ops: Seq<KeyOp>)
    requires
        distinct_ops(ops),
    ensures
        applied(rules, effective(ops, rules)) == applied(rules, ops),
    decreases ops.len(),
{
    if ops.len() > 0 {
        let front = ops.drop_last();
        assert(distinct_ops(front)) by {
            assert forall|a: int, b: int| 0 <= a < b < front.len() implies (
            #[trigger] front[a]).key != (#[trigger] front[b]).key by {
                assert(ops[a].key != ops[b].key);
            }
        }
        lemma_effective_suffices(rules, front);
        let op = ops.last();
        if is_noop(op, rules) {
            assert forall|i: int| 0 <= i < front.len() implies (#[trigger] front[i]).key
                != op.key by {
                assert(ops[i].key != ops[ops.len() - 1].key);
            }
            lemma_applied_at(rules, front, op.key);
            assert(applied(rules, ops) =~= applied(rules, front));
        } else {
            let kept = effective(front, rules);
            assert(kept.push(op).drop_last() =~= kept);
        }
    }
}

/// A batch of pending changes does what was announced: once every change that was sent was made,
/// an address of the batch has its rule if and only if the change that was pending for it adds
/// one, and every other rule is as it was. The changes that are not sent make no difference.
pub proof fn pending_changes_take_effect(
    owned: Set<IpKey>,
    pending: Map<IpKey, RuleAction>,
    keys: Seq<IpKey>,
    k: IpKey,
)
    requires
        keys.no_duplicates(),
    ensures
        applied(owned, effective(pending_ops(pending, keys), owned)).contains(k) == (
        if keys.contains(k) {
            pending[k] == RuleAction::Add
        } else {
            owned.contains(k)
        }),
{
    let ops = pending_ops(pending, keys);
    assert(distinct_ops(ops)) by {
        assert forall|a: int, b: int| 0 <= a < b < ops.len() implies (#[trigger] ops[a]).key != (
        #[trigger] ops[b]).key by {
            assert(keys[a] != keys[b]);
        }
    }
    lemma_effective_suffices(owned, ops);
    lemma_applied_at(owned, ops, k);
    if keys.contains(k) {
        let i = choose|i: int| 0 <= i < keys.len() && keys[i] == k;
        assert(ops[i].key == k);
    } else {
        assert forall|i: int| 0 <= i < ops.len() implies (#[trigger] ops[i]).key != k by {
            assert(keys[i] != k);
        }
    }
}

} // verus!
