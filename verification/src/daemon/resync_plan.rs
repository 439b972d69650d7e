//! Which rules to add and to delete, a chunk at a time.
use crate::daemon::state::{op_view, ops_view, KeyOp};
use crate::ip_key::{key_lt, key_order_is_total, IpKey};
use crate::ip_set::ascending;
use crate::netlink::rule::{RuleAction, RuleOp};
use vstd::prelude::*;

verus! {

// ---------------------------------------------------------------------------
// Cleaning up
// ---------------------------------------------------------------------------

/// The end of a chunk of at most `max_ops` keys from `offset` on.
pub open spec fn chunk_end(len: int, offset: int, max_ops: int) -> int {
    if offset >= len {
        offset
    } else if max_ops >= len - offset {
        len
    } else {
        offset + max_ops
    }
}

/// The deletion of the rule for each key.
pub open spec fn deletions(keys: Seq<IpKey>) -> Seq<KeyOp> {
    Seq::new(keys.len(), |i: int| KeyOp { key: keys[i], action: RuleAction::Delete })
}

/// The deletions in a chunk of at most `max_ops` keys from `offset` on.
pub open spec fn cleanup_chunk(keys: Seq<IpKey>, offset: int, max_ops: int) -> Seq<KeyOp> {
    if offset >= keys.len() {
        Seq::empty()
    } else {
        deletions(keys.subrange(offset, chunk_end(keys.len() as int, offset, max_ops)))
    }
}

/// Appends the deletions in the next chunk, and moves on past it.
pub fn fill_tracked_cleanup_chunk(
    keys: &[IpKey],
    offset: &mut usize,
    max_ops: usize,
    out: &mut Vec<RuleOp>,
)
    ensures
        ops_view(final(out)@) == ops_view(old(out)@) + cleanup_chunk(
            keys@,
            *old(offset) as int,
            max_ops as int,
        ),
        *final(offset) == chunk_end(keys@.len() as int, *old(offset) as int, max_ops as int),
{
    let start: usize = *offset;
    let n: usize = keys.len();
    if max_ops == 0 || start >= n {
        assert(ops_view(out@) =~= ops_view(old(out)@) + cleanup_chunk(
            keys@,
            start as int,
            max_ops as int,
        ));
        return;
    }
    let end: usize = if max_ops >= n - start {
        n
    } else {
        start + max_ops
    };
    assert(ops_view(out@) =~= ops_view(old(out)@) + deletions(
        keys@.subrange(start as int, start as int),
    ));
    for i in start..end
        invariant
            end <= keys@.len(),
            ops_view(out@) == ops_view(old(out)@) + deletions(
                keys@.subrange(start as int, i as int),
            ),
    {
        let ghost before = ops_view(out@);
        let op = RuleOp { addr: keys[i].into_ip(), action: RuleAction::Delete };
        out.push(op);
        proof {
            assert(ops_view(out@) =~= before.push(op_view(op)));
            assert(deletions(keys@.subrange(start as int, i + 1)) =~= deletions(
                keys@.subrange(start as int, i as int),
            ).push(op_view(op)));
        }
    }
    *offset = end;
}

/// Chunk after chunk, every key is deleted exactly once, in order: a chunk and the keys after it
/// together are the keys from its start on, and no chunk is empty before the end.
pub proof fn cleanup_chunks_cover_all(keys: Seq<IpKey>, offset: int, max_ops: int)
    requires
        0 <= offset < keys.len(),
        max_ops > 0,
    ensures
        cleanup_chunk(keys, offset, max_ops).len() > 0,
        offset < chunk_end(keys.len() as int, offset, max_ops) <= keys.len(),
        cleanup_chunk(keys, offset, max_ops) + deletions(
            keys.subrange(
                chunk_end(keys.len() as int, offset, max_ops),
                keys.len() as int,
            ),
        ) == deletions(keys.subrange(offset, keys.len() as int)),
{
    let end = chunk_end(keys.len() as int, offset, max_ops);
    assert(deletions(keys.subrange(offset, end)) + deletions(
        keys.subrange(end, keys.len() as int),
    ) =~= deletions(keys.subrange(offset, keys.len() as int)));
}

// ---------------------------------------------------------------------------
// Resynchronisation
// ---------------------------------------------------------------------------

/// A chunk of a comparison of two ascending lists, and how far it has come in each.
pub struct Diff {
    pub ops: Seq<KeyOp>,
    pub target_idx: int,
    pub current_idx: int,
}

/// How many keys of a list stand from a place on; none where the place is past its end.
pub open spec fn left_from(len: nat, i: int) -> int {
    if i < len {
        len - i
    } else {
        0
    }
}

/// At most `max_ops` changes that lead from the keys in `current` to those in `target`, from
/// the given places on. A place past the end of its list is like its end.
pub open spec fn diff(
    target: Seq<IpKey>,
    current: Seq<IpKey>,
    i: int,
    j: int,
    max_ops: int,
) -> Diff
    decreases left_from(target.len(), i) + left_from(current.len(), j),
{
    if max_ops <= 0 || i < 0 || j < 0 || (i >= target.len() && j >= current.len()) {
        Diff { ops: Seq::empty(), target_idx: i, current_idx: j }
    } else if i < target.len() && j < current.len() && target[i] == current[j] {
        diff(target, current, i + 1, j + 1, max_ops)
    } else if i < target.len() && (j >= current.len() || key_lt(target[i], current[j])) {
        let rest = diff(target, current, i + 1, j, max_ops - 1);
        Diff { ops: seq![KeyOp { key: target[i], action: RuleAction::Add }] + rest.ops, ..rest }
    } else {
        let rest = diff(target, current, i, j + 1, max_ops - 1);
        Diff { ops: seq![KeyOp { key: current[j], action: RuleAction::Delete }] + rest.ops, ..rest }
    }
}

/// How far a chunk can come.
pub proof fn lemma_diff_bounds(
    target: Seq<IpKey>,
    current: Seq<IpKey>,
    i: int,
    j: int,
    max_ops: int,
)
    requires
        0 <= i <= target.len(),
        0 <= j <= current.len(),
        0 <= max_ops,
    ensures
        ({
            let d = diff(target, current, i, j, max_ops);
            &&& i <= d.target_idx <= target.len()
            &&& j <= d.current_idx <= current.len()
            &&& d.ops.len() <= max_ops
            &&& d.ops.len() <= (d.target_idx - i) + (d.current_idx - j)
            &&& d.ops.len() < max_ops ==> d.target_idx == target.len() && d.current_idx
                == current.len()
        }),
    decreases target.len() - i + current.len() - j,
{
    if max_ops == 0 || (i == target.len() && j == current.len()) {
    } else if i < target.len() && j < current.len() && target[i] == current[j] {
        lemma_diff_bounds(target, current, i + 1, j + 1, max_ops);
    } else if i < target.len() && (j == current.len() || key_lt(target[i], current[j])) {
        lemma_diff_bounds(target, current, i + 1, j, max_ops - 1);
    } else {
        lemma_diff_bounds(target, current, i, j + 1, max_ops - 1);
    }
}

/// The changes in a chunk are for keys of the lists from the given places on.
proof fn lemma_diff_keys(
    target: Seq<IpKey>,
    current: Seq<IpKey>,
    i: int,
    j: int,
    max_ops: int,
    n: int,
)
    requires
        0 <= i <= target.len(),
        0 <= j <= current.len(),
        0 <= n < diff(target, current, i, j, max_ops).ops.len(),
    ensures
        ({
            let key = diff(target, current, i, j, max_ops).ops[n].key;
            ||| exists|a: int| i <= a < target.len() && target[a] == key
            ||| exists|b: int| j <= b < current.len() && current[b] == key
        }),
    decreases target.len() - i + current.len() - j,
{
    if i < target.len() && j < current.len() && target[i] == current[j] {
        lemma_diff_keys(target, current, i + 1, j + 1, max_ops, n);
    } else if i < target.len() && (j == current.len() || key_lt(target[i], current[j])) {
        if n > 0 {
            lemma_diff_keys(target, current, i + 1, j, max_ops - 1, n - 1);
        }
    } else {
        if n > 0 {
            lemma_diff_keys(target, current, i, j + 1, max_ops - 1, n - 1);
        }
    }
}

/// A key before all keys of the lists from the given places on comes before the changes there.
proof fn lemma_before_changes(
    key: IpKey,
    target: Seq<IpKey>,
    current: Seq<IpKey>,
    i: int,
    j: int,
    max_ops: int,
)
    requires
        0 <= i <= target.len(),
        0 <= j <= current.len(),
        ascending(target),
        ascending(current),
        i < target.len() ==> key_lt(key, target[i]),
        j < current.len() ==> key_lt(key, current[j]),
    ensures
        forall|n: int|
            0 <= n < diff(target, current, i, j, max_ops).ops.len() ==> key_lt(
                key,
                #[trigger] diff(target, current, i, j, max_ops).ops[n].key,
            ),
{
    let ops = diff(target, current, i, j, max_ops).ops;
    assert forall|n: int| 0 <= n < ops.len() implies key_lt(key, #[trigger] ops[n].key) by {
        lemma_diff_keys(target, current, i, j, max_ops, n);
        let k = ops[n].key;
        if exists|a: int| i <= a < target.len() && target[a] == k {
            let a = choose|a: int| i <= a < target.len() && target[a] == k;
            if a > i {
                assert(key_lt(target[i], target[a]));
                key_order_is_total(key, target[i], target[a]);
            }
        } else {
            let b = choose|b: int| j <= b < current.len() && current[b] == k;
            if b > j {
                assert(key_lt(current[j], current[b]));
                key_order_is_total(key, current[j], current[b]);
            }
        }
    }
}

/// The changes in a chunk come in strictly ascending order of their keys, so that each key is
/// changed at most once.
pub proof fn changes_are_ascending(
    target: Seq<IpKey>,
    current: Seq<IpKey>,
    i: int,
    j: int,
    max_ops: int,
)
    requires
        0 <= i <= target.len(),
        0 <= j <= current.len(),
        ascending(target),
        ascending(current),
    ensures
        ({
            let ops = diff(target, current, i, j, max_ops).ops;
            forall|m: int, n: int|
                0 <= m < n < ops.len() ==> key_lt((#[trigger] ops[m]).key, (#[trigger] ops[n]).key)
        }),
    decreases target.len() - i + current.len() - j,
{
    let ops = diff(target, current, i, j, max_ops).ops;
    if max_ops <= 0 || (i == target.len() && j == current.len()) {
    } else if i < target.len() && j < current.len() && target[i] == current[j] {
        changes_are_ascending(target, current, i + 1, j + 1, max_ops);
    } else if i < target.len() && (j == current.len() || key_lt(target[i], current[j])) {
        let rest = diff(target, current, i + 1, j, max_ops - 1).ops;
        changes_are_ascending(target, current, i + 1, j, max_ops - 1);
        lemma_before_changes(target[i], target, current, i + 1, j, max_ops - 1);
        assert forall|m: int, n: int| 0 <= m < n < ops.len() implies key_lt(
            (#[trigger] ops[m]).key,
            (#[trigger] ops[n]).key,
        ) by {
            assert(ops[n] == rest[n - 1]);
            if m > 0 {
                assert(ops[m] == rest[m - 1]);
            }
        }
    } else {
        let rest = diff(target, current, i, j + 1, max_ops - 1).ops;
        if i < target.len() {
            key_order_is_total(target[i], current[j], current[j]);
        }
        changes_are_ascending(target, current, i, j + 1, max_ops - 1);
        lemma_before_changes(current[j], target, current, i, j + 1, max_ops - 1);
        assert forall|m: int, n: int| 0 <= m < n < ops.len() implies key_lt(
            (#[trigger] ops[m]).key,
            (#[trigger] ops[n]).key,
        ) by {
            assert(ops[n] == rest[n - 1]);
            if m > 0 {
                assert(ops[m] == rest[m - 1]);
            }
        }
    }
}

/// Appends the next chunk of changes that lead from the keys in `current` to those in `target`,
/// until `out` holds `max_ops`, and moves on past it. A place past the end of its list is like
/// its end.
pub fn fill_resync_chunk(
    target: &[IpKey],
    current: &[IpKey],
    target_idx: &mut usize,
    current_idx: &mut usize,
    max_ops: usize,
    out: &mut Vec<RuleOp>,
)
    ensures
        ({
            let d = diff(
                target@,
                current@,
                *old(target_idx) as int,
                *old(current_idx) as int,
                max_ops - old(out)@.len(),
            );
            &&& ops_view(final(out)@) == ops_view(old(out)@) + d.ops
            &&& *final(target_idx) == d.target_idx
            &&& *final(current_idx) == d.current_idx
        }),
        *old(target_idx) <= target@.len() ==> *final(target_idx) <= target@.len(),
        *old(current_idx) <= current@.len() ==> *final(current_idx) <= current@.len(),
{
    let ghost whole = diff(
        target@,
        current@,
        *target_idx as int,
        *current_idx as int,
        max_ops - out@.len(),
    );
    let ghost start = ops_view(out@);
    while out.len() < max_ops && *target_idx < target.len() && *current_idx < current.len()
        invariant
            *old(target_idx) <= target@.len() ==> *target_idx <= target@.len(),
            *old(current_idx) <= current@.len() ==> *current_idx <= current@.len(),
            rest_joins(
                whole,
                start,
                ops_view(out@),
                diff(
                    target@,
                    current@,
                    *target_idx as int,
                    *current_idx as int,
                    max_ops - out@.len(),
                ),
            ),
        decreases target@.len() - *target_idx + current@.len() - *current_idx,
    {
        let target_key: IpKey = target[*target_idx];
        let current_key: IpKey = current[*current_idx];
        let ghost had = ops_view(out@);
        proof {
            key_order_is_total(target_key, current_key, target_key);
        }
        if target_key.comes_before(current_key) {
            let op = RuleOp { addr: target_key.into_ip(), action: RuleAction::Add };
            out.push(op);
            *target_idx = *target_idx + 1;
            proof {
                assert(ops_view(out@) =~= had.push(op_view(op)));
                lemma_joins_push(
                    whole,
                    start,
                    had,
                    op_view(op),
                    diff(
                        target@,
                        current@,
                        *target_idx as int,
                        *current_idx as int,
                        max_ops - out@.len(),
                    ),
                );
            }
        } else if current_key.comes_before(target_key) {
            let op = RuleOp { addr: current_key.into_ip(), action: RuleAction::Delete };
            out.push(op);
            *current_idx = *current_idx + 1;
            proof {
                assert(ops_view(out@) =~= had.push(op_view(op)));
                lemma_joins_push(
                    whole,
                    start,
                    had,
                    op_view(op),
                    diff(
                        target@,
                        current@,
                        *target_idx as int,
                        *current_idx as int,
                        max_ops - out@.len(),
                    ),
                );
            }
        } else {
            *target_idx = *target_idx + 1;
            *current_idx = *current_idx + 1;
        }
    }
    while out.len() < max_ops && *target_idx < target.len()
        invariant
            *old(target_idx) <= target@.len() ==> *target_idx <= target@.len(),
            *old(current_idx) <= current@.len() ==> *current_idx <= current@.len(),
            out@.len() >= max_ops || *target_idx >= target@.len() || *current_idx >= current@.len(),
            rest_joins(
                whole,
                start,
                ops_view(out@),
                diff(
                    target@,
                    current@,
                    *target_idx as int,
                    *current_idx as int,
                    max_ops - out@.len(),
                ),
            ),
        decreases target@.len() - *target_idx,
    {
        let ghost had = ops_view(out@);
        let op = RuleOp { addr: target[*target_idx].into_ip(), action: RuleAction::Add };
        out.push(op);
        *target_idx = *target_idx + 1;
        proof {
            assert(ops_view(out@) =~= had.push(op_view(op)));
            lemma_joins_push(
                whole,
                start,
                had,
                op_view(op),
                diff(
                    target@,
                    current@,
                    *target_idx as int,
                    *current_idx as int,
                    max_ops - out@.len(),
                ),
            );
        }
    }
    while out.len() < max_ops && *current_idx < current.len()
        invariant
            *old(target_idx) <= target@.len() ==> *target_idx <= target@.len(),
            *old(current_idx) <= current@.len() ==> *current_idx <= current@.len(),
            out@.len() >= max_ops || *target_idx >= target@.len(),
            rest_joins(
                whole,
                start,
                ops_view(out@),
                diff(
                    target@,
                    current@,
                    *target_idx as int,
                    *current_idx as int,
                    max_ops - out@.len(),
                ),
            ),
        decreases current@.len() - *current_idx,
    {
        let ghost had = ops_view(out@);
        let op = RuleOp { addr: current[*current_idx].into_ip(), action: RuleAction::Delete };
        out.push(op);
        *current_idx = *current_idx + 1;
        proof {
            assert(ops_view(out@) =~= had.push(op_view(op)));
            lemma_joins_push(
                whole,
                start,
                had,
                op_view(op),
                diff(
                    target@,
                    current@,
                    *target_idx as int,
                    *current_idx as int,
                    max_ops - out@.len(),
                ),
            );
        }
    }
    assert(ops_view(out@) =~= start + whole.ops);
}

/// Whether what was appended so far and the rest of a chunk together are the whole chunk.
spec fn rest_joins(whole: Diff, start: Seq<KeyOp>, have: Seq<KeyOp>, rest: Diff) -> bool {
    &&& have + rest.ops == start + whole.ops
    &&& rest.target_idx == whole.target_idx
    &&& rest.current_idx == whole.current_idx
}

/// To append the first change of the rest leaves the whole as it is.
proof fn lemma_joins_push(
    whole: Diff,
    start: Seq<KeyOp>,
    had: Seq<KeyOp>,
    op: KeyOp,
    rest: Diff,
)
    requires
        rest_joins(whole, start, had, Diff { ops: seq![op] + rest.ops, ..rest }),
    ensures
        rest_joins(whole, start, had.push(op), rest),
{
    assert(had.push(op) + rest.ops =~= had + (seq![op] + rest.ops));
}

/// Two chunks one after the other are one larger chunk: how the changes are cut into chunks
/// does not change what they are.
pub proof fn chunks_join(
    target: Seq<IpKey>,
    current: Seq<IpKey>,
    i: int,
    j: int,
    first: int,
    second: int,
)
    requires
        0 <= i <= target.len(),
        0 <= j <= current.len(),
        0 <= first,
        0 < second,
    ensures
        ({
            let a = diff(target, current, i, j, first);
            let b = diff(target, current, a.target_idx, a.current_idx, second);
            let whole = diff(target, current, i, j, first + second);
            &&& a.ops + b.ops == whole.ops
            &&& b.target_idx == whole.target_idx
            &&& b.current_idx == whole.current_idx
        }),
    decreases target.len() - i + current.len() - j,
{
    let whole = diff(target, current, i, j, first + second);
    if first == 0 {
        assert(Seq::<KeyOp>::empty() + whole.ops =~= whole.ops);
    } else if i == target.len() && j == current.len() {
        assert(Seq::<KeyOp>::empty() + whole.ops =~= whole.ops);
    } else if i < target.len() && j < current.len() && target[i] == current[j] {
        chunks_join(target, current, i + 1, j + 1, first, second);
    } else if i < target.len() && (j == current.len() || key_lt(target[i], current[j])) {
        chunks_join(target, current, i + 1, j, first - 1, second);
        let op = KeyOp { key: target[i], action: RuleAction::Add };
        let a = diff(target, current, i + 1, j, first - 1);
        let b = diff(target, current, a.target_idx, a.current_idx, second);
        assert((seq![op] + a.ops) + b.ops =~= seq![op] + (a.ops + b.ops));
    } else {
        chunks_join(target, current, i, j + 1, first - 1, second);
        let op = KeyOp { key: current[j], action: RuleAction::Delete };
        let a = diff(target, current, i, j + 1, first - 1);
        let b = diff(target, current, a.target_idx, a.current_idx, second);
        assert((seq![op] + a.ops) + b.ops =~= seq![op] + (a.ops + b.ops));
    }
}

/// Whether a key stands in a list from place `i` on.
pub open spec fn stands_from(keys: Seq<IpKey>, i: int, k: IpKey) -> bool {
    exists|a: int| i <= a < keys.len() && keys[a] == k
}

/// Whether the changes hold one.
pub open spec fn has_op(ops: Seq<KeyOp>, op: KeyOp) -> bool {
    exists|a: int| 0 <= a < ops.len() && ops[a] == op
}

/// The changes from given places on, with room for all of them, are the set differences: a rule
/// is added if and only if its key stands in the rest of `target` and not in that of `current`,
/// and deleted if and only if it is the other way round.
pub proof fn diff_is_set_difference(
    target: Seq<IpKey>,
    current: Seq<IpKey>,
    i: int,
    j: int,
    max_ops: int,
    k: IpKey,
)
    requires
        ascending(target),
        ascending(current),
        0 <= i <= target.len(),
        0 <= j <= current.len(),
        max_ops >= target.len() - i + current.len() - j,
    ensures
        has_op(diff(target, current, i, j, max_ops).ops, KeyOp { key: k, action: RuleAction::Add })
            <==> stands_from(target, i, k) && !stands_from(current, j, k),
        has_op(
            diff(target, current, i, j, max_ops).ops,
            KeyOp { key: k, action: RuleAction::Delete },
        ) <==> stands_from(current, j, k) && !stands_from(target, i, k),
    decreases target.len() - i + current.len() - j,
{
    let add = KeyOp { key: k, action: RuleAction::Add };
    let del = KeyOp { key: k, action: RuleAction::Delete };
    if i == target.len() && j == current.len() {
    } else if i < target.len() && j < current.len() && target[i] == current[j] {
        diff_is_set_difference(target, current, i + 1, j + 1, max_ops, k);
        lemma_stands_next(target, i, k);
        lemma_stands_next(current, j, k);
        lemma_stands_once(target, i, target[i]);
        lemma_stands_once(current, j, current[j]);
    } else if i < target.len() && (j == current.len() || key_lt(target[i], current[j])) {
        diff_is_set_difference(target, current, i + 1, j, max_ops - 1, k);
        let rest = diff(target, current, i + 1, j, max_ops - 1).ops;
        let op = KeyOp { key: target[i], action: RuleAction::Add };
        lemma_has_op_cons(op, rest, add);
        lemma_has_op_cons(op, rest, del);
        lemma_stands_next(target, i, k);
        lemma_stands_once(target, i, target[i]);
        if j < current.len() {
            lemma_not_among_later(current, j, target[i]);
        }
    } else {
        key_order_is_total(
            current[j],
            if i < target.len() {
                target[i]
            } else {
                current[j]
            },
            current[j],
        );
        diff_is_set_difference(target, current, i, j + 1, max_ops - 1, k);
        let rest = diff(target, current, i, j + 1, max_ops - 1).ops;
        let op = KeyOp { key: current[j], action: RuleAction::Delete };
        lemma_has_op_cons(op, rest, add);
        lemma_has_op_cons(op, rest, del);
        lemma_stands_next(current, j, k);
        lemma_stands_once(current, j, current[j]);
        if i < target.len() {
            lemma_not_among_later(target, i, current[j]);
        }
    }
}

proof fn lemma_has_op_cons(first: KeyOp, rest: Seq<KeyOp>, op: KeyOp)
    ensures
        has_op(seq![first] + rest, op) <==> first == op || has_op(rest, op),
{
    let all = seq![first] + rest;
    if has_op(rest, op) {
        let a = choose|a: int| 0 <= a < rest.len() && rest[a] == op;
        assert(all[a + 1] == op);
    }
    if first == op {
        assert(all[0] == op);
    }
    if has_op(all, op) {
        let a = choose|a: int| 0 <= a < all.len() && all[a] == op;
        if a > 0 {
            assert(rest[a - 1] == op);
        }
    }
}

proof fn lemma_stands_next(keys: Seq<IpKey>, i: int, k: IpKey)
    requires
        0 <= i < keys.len(),
    ensures
        stands_from(keys, i, k) <==> keys[i] == k || stands_from(keys, i + 1, k),
{
    if stands_from(keys, i, k) {
        let a = choose|a: int| i <= a < keys.len() && keys[a] == k;
        if a > i {
            assert(i + 1 <= a < keys.len() && keys[a] == k);
        }
    }
    if stands_from(keys, i + 1, k) {
        let a = choose|a: int| i + 1 <= a < keys.len() && keys[a] == k;
        assert(i <= a < keys.len() && keys[a] == k);
    }
    if keys[i] == k {
        assert(i <= i < keys.len() && keys[i] == k);
    }
}

proof fn lemma_stands_once(keys: Seq<IpKey>, i: int, k: IpKey)
    requires
        ascending(keys),
        0 <= i < keys.len(),
        keys[i] == k,
    ensures
        !stands_from(keys, i + 1, k),
{
    if stands_from(keys, i + 1, k) {
        let a = choose|a: int| i + 1 <= a < keys.len() && keys[a] == k;
        assert(key_lt(keys[i], keys[a]));
    }
}

proof fn lemma_not_among_later(keys: Seq<IpKey>, i: int, k: IpKey)
    requires
        ascending(keys),
        0 <= i < keys.len(),
        key_lt(k, keys[i]),
    ensures
        !stands_from(keys, i, k),
{
    if stands_from(keys, i, k) {
        let a = choose|a: int| i <= a < keys.len() && keys[a] == k;
        if a > i {
            assert(key_lt(keys[i], keys[a]));
        }
    }
}

} // verus!
