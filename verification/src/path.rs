//! Paths as byte strings.
use crate::text::{find, lemma_find, lemma_find_unique, split, split_bytes, views};
use vstd::prelude::*;

verus! {

/// The byte that parts the names in a path.
pub const SLASH: u8 = 47;
pub const DOT: u8 = 46;

/// Whether a path starts at the root.
pub open spec fn absolute(path: Seq<u8>) -> bool {
    path.len() > 0 && path[0] == SLASH
}

/// Whether a path starts at the root.
pub fn is_absolute(path: &[u8]) -> (r: bool)
    ensures
        r == absolute(path@),
{
    path.len() > 0 && path[0] == SLASH
}

/// A path seen from a directory: itself where it starts at the root, else below the directory.
pub open spec fn joined_path(base: Seq<u8>, path: Seq<u8>) -> Seq<u8> {
    if absolute(path) || base.len() == 0 {
        path
    } else if base.last() == SLASH {
        base + path
    } else {
        base.push(SLASH) + path
    }
}

/// A path seen from a directory.
pub fn join_path(base: &[u8], path: &[u8]) -> (r: Vec<u8>)
    ensures
        r@ == joined_path(base@, path@),
{
    let mut out: Vec<u8> = Vec::new();
    let n: usize = base.len();
    if !is_absolute(path) && n > 0 {
        out.extend_from_slice(base);
        if base[n - 1] != SLASH {
            out.push(SLASH);
        }
    }
    out.extend_from_slice(path);
    assert(out@ =~= joined_path(base@, path@));
    out
}

/// Whether a name stands for the directory it is in, or is no name.
pub open spec fn is_skipped(part: Seq<u8>) -> bool {
    part.len() == 0 || part == seq![DOT]
}

/// Whether a name stands for the directory above.
pub open spec fn is_up(part: Seq<u8>) -> bool {
    part == seq![DOT, DOT]
}

/// Whether a name stands for the directory it is in, or is no name.
fn part_is_skipped(part: &[u8]) -> (r: bool)
    ensures
        r == is_skipped(part@),
{
    let r = part.len() == 0 || (part.len() == 1 && part[0] == DOT);
    assert(part@.len() == 1 && part@[0] == DOT ==> part@ =~= seq![DOT]);
    r
}

/// Whether a name stands for the directory above.
fn part_is_up(part: &[u8]) -> (r: bool)
    ensures
        r == is_up(part@),
{
    let r = part.len() == 2 && part[0] == DOT && part[1] == DOT;
    assert(part@.len() == 2 && part@[0] == DOT && part@[1] == DOT ==> part@ =~= seq![DOT, DOT]);
    r
}

/// The last name of a path, where it is not one for the directory above.
pub open spec fn last_name(parts: Seq<Seq<u8>>) -> Option<Seq<u8>>
    decreases parts.len(),
{
    if parts.len() == 0 {
        None
    } else if is_skipped(parts.last()) {
        last_name(parts.drop_last())
    } else if is_up(parts.last()) {
        None
    } else {
        Some(parts.last())
    }
}

/// The last name of a path, where it is not one for the directory above.
pub fn file_name(path: &[u8]) -> (r: Option<&[u8]>)
    ensures
        match r {
            Some(name) => last_name(split(path@, SLASH)) == Some(name@),
            None => last_name(split(path@, SLASH)) is None,
        },
{
    let parts = split_bytes(path, SLASH);
    let ghost all = views(parts@);
    let mut n: usize = parts.len();
    assert(all.subrange(0, n as int) =~= all);
    while n > 0
        invariant
            n <= parts@.len(),
            all == views(parts@),
            last_name(all) == last_name(all.subrange(0, n as int)),
            all == split(path@, SLASH),
        decreases n,
    {
        let part = parts[n - 1];
        proof {
            assert(all.subrange(0, n as int).last() == part@);
            assert(all.subrange(0, n as int).drop_last() =~= all.subrange(0, n - 1));
        }
        if part_is_skipped(part) {
            n = n - 1;
        } else if part_is_up(part) {
            return None;
        } else {
            return Some(part);
        }
    }
    None
}

/// The names that are left of a path once each step up has taken the name before it away. A
/// step up from the start leads nowhere.
pub open spec fn stacked(parts: Seq<Seq<u8>>) -> Seq<Seq<u8>>
    decreases parts.len(),
{
    if parts.len() == 0 {
        Seq::empty()
    } else {
        let before = stacked(parts.drop_last());
        if is_skipped(parts.last()) {
            before
        } else if is_up(parts.last()) {
            if before.len() > 0 {
                before.drop_last()
            } else {
                before
            }
        } else {
            before.push(parts.last())
        }
    }
}

/// Names with slashes between them.
pub open spec fn with_slashes(parts: Seq<Seq<u8>>) -> Seq<u8>
    decreases parts.len(),
{
    if parts.len() == 0 {
        Seq::empty()
    } else if parts.len() == 1 {
        parts[0]
    } else {
        with_slashes(parts.drop_last()).push(SLASH) + parts.last()
    }
}

/// The path without steps up, without names for the directory they are in, and without
/// superfluous slashes.
pub open spec fn normalized(path: Seq<u8>) -> Seq<u8> {
    let names = with_slashes(stacked(split(path, SLASH)));
    if absolute(path) {
        seq![SLASH] + names
    } else {
        names
    }
}

/// Removes steps up, names for the directory they are in, and superfluous slashes from a path.
/// The file system is not asked.
pub fn normalize_path(path: &[u8]) -> (r: Vec<u8>)
    ensures
        r@ == normalized(path@),
{
    let parts = split_bytes(path, SLASH);
    let ghost all = views(parts@);
    let mut names: Vec<&[u8]> = Vec::new();
    assert(all.subrange(0, 0) =~= Seq::<Seq<u8>>::empty());
    assert(views(names@) =~= Seq::<Seq<u8>>::empty());
    for i in 0..parts.len()
        invariant
            all == views(parts@),
            views(names@) == stacked(all.subrange(0, i as int)),
    {
        let part = parts[i];
        let ghost before = names@;
        proof {
            assert(all.subrange(0, i + 1).drop_last() =~= all.subrange(0, i as int));
            assert(all.subrange(0, i + 1).last() == part@);
        }
        if part_is_skipped(part) {
        } else if part_is_up(part) {
            let _ = names.pop();
            assert(before.len() > 0 ==> views(names@) =~= views(before).drop_last());
        } else {
            names.push(part);
            assert(views(names@) =~= views(before).push(part@));
        }
    }
    assert(all.subrange(0, all.len() as int) =~= all);
    let ghost stack = views(names@);
    let mut out: Vec<u8> = Vec::new();
    if is_absolute(path) {
        out.push(SLASH);
    }
    let ghost start = out@;
    assert(stack.subrange(0, 0) =~= Seq::<Seq<u8>>::empty());
    assert(start + with_slashes(stack.subrange(0, 0)) =~= start);
    for i in 0..names.len()
        invariant
            stack == views(names@),
            out@ == start + with_slashes(stack.subrange(0, i as int)),
    {
        let ghost before = with_slashes(stack.subrange(0, i as int));
        proof {
            assert(stack.subrange(0, i + 1).drop_last() =~= stack.subrange(0, i as int));
            assert(stack.subrange(0, i + 1).last() == names@[i as int]@);
        }
        if i > 0 {
            out.push(SLASH);
        }
        out.extend_from_slice(names[i]);
        proof {
            if i > 0 {
                assert(out@ =~= start + (before.push(SLASH) + names@[i as int]@));
            } else {
                assert(before =~= Seq::<u8>::empty());
                assert(stack.subrange(0, 1)[0] == names@[0]@);
                assert(out@ =~= start + names@[0]@);
            }
        }
    }
    assert(stack.subrange(0, stack.len() as int) =~= stack);
    assert(out@ =~= normalized(path@));
    out
}

// ---------------------------------------------------------------------------
// Laws
// ---------------------------------------------------------------------------

/// Whether a name is one that a normalised path can hold.
pub open spec fn is_plain(part: Seq<u8>) -> bool {
    !is_skipped(part) && !is_up(part) && !part.contains(SLASH)
}

/// The parts between slashes hold no slash.
proof fn lemma_split_has_no_slash(s: Seq<u8>, i: int)
    requires
        0 <= i < split(s, SLASH).len(),
    ensures
        !split(s, SLASH)[i].contains(SLASH),
    decreases s.len(),
{
    lemma_find(s, SLASH);
    let k = find(s, SLASH);
    if k < s.len() {
        if i == 0 {
            assert(split(s, SLASH)[0] == s.take(k));
        } else {
            lemma_split_has_no_slash(s.skip(k + 1), i - 1);
            assert(split(s, SLASH)[i] == split(s.skip(k + 1), SLASH)[i - 1]);
        }
    }
}

/// The names that are left of a path are plain ones.
proof fn lemma_stacked_is_plain(parts: Seq<Seq<u8>>)
    requires
        forall|i: int| 0 <= i < parts.len() ==> !(#[trigger] parts[i]).contains(SLASH),
    ensures
        forall|i: int| 0 <= i < stacked(parts).len() ==> is_plain(#[trigger] stacked(parts)[i]),
    decreases parts.len(),
{
    if parts.len() > 0 {
        let init = parts.drop_last();
        assert forall|i: int| 0 <= i < init.len() implies !(#[trigger] init[i]).contains(SLASH) by {
            assert(!parts[i].contains(SLASH));
        }
        lemma_stacked_is_plain(init);
        assert(!parts[parts.len() - 1].contains(SLASH));
        let before = stacked(init);
        assert forall|i: int| 0 <= i < stacked(parts).len() implies is_plain(
            #[trigger] stacked(parts)[i],
        ) by {
            if i < before.len() {
                assert(is_plain(before[i]));
            }
        }
    }
}

/// Plain names stay as they are.
proof fn lemma_stacked_keeps_plain(parts: Seq<Seq<u8>>)
    requires
        forall|i: int| 0 <= i < parts.len() ==> is_plain(#[trigger] parts[i]),
    ensures
        stacked(parts) == parts,
    decreases parts.len(),
{
    if parts.len() > 0 {
        lemma_stacked_keeps_plain(parts.drop_last());
        assert(is_plain(parts[parts.len() - 1]));
        assert(parts.drop_last().push(parts.last()) =~= parts);
    } else {
        assert(stacked(parts) =~= parts);
    }
}

/// A slash between two paths parts their names.
proof fn lemma_split_at_slash(a: Seq<u8>, b: Seq<u8>)
    ensures
        split(a.push(SLASH) + b, SLASH) == split(a, SLASH) + split(b, SLASH),
    decreases a.len(),
{
    let s = a.push(SLASH) + b;
    lemma_find(a, SLASH);
    lemma_find(s, SLASH);
    let k = find(a, SLASH);
    if k < a.len() {
        lemma_find_unique(s, SLASH, k);
        let rest = a.skip(k + 1);
        assert(s.skip(k + 1) =~= rest.push(SLASH) + b);
        assert(s.take(k) =~= a.take(k));
        lemma_split_at_slash(rest, b);
        assert(seq![a.take(k)] + (split(rest, SLASH) + split(b, SLASH)) =~= (seq![a.take(k)]
            + split(rest, SLASH)) + split(b, SLASH));
    } else {
        lemma_find_unique(s, SLASH, a.len() as int);
        assert(s.take(a.len() as int) =~= a);
        assert(s.skip(a.len() as int + 1) =~= b);
    }
}

/// Plain names with slashes between them are parted again at the slashes.
proof fn lemma_split_with_slashes(parts: Seq<Seq<u8>>)
    requires
        parts.len() > 0,
        forall|i: int| 0 <= i < parts.len() ==> is_plain(#[trigger] parts[i]),
    ensures
        split(with_slashes(parts), SLASH) == parts,
    decreases parts.len(),
{
    let last = parts.last();
    assert(is_plain(parts[parts.len() - 1]));
    lemma_find(last, SLASH);
    assert(split(last, SLASH) =~= seq![last]) by {
        if find(last, SLASH) < last.len() {
            assert(last.contains(last[find(last, SLASH)]));
        }
    }
    if parts.len() == 1 {
        assert(parts =~= seq![parts[0]]);
    } else {
        lemma_split_with_slashes(parts.drop_last());
        lemma_split_at_slash(with_slashes(parts.drop_last()), last);
        assert(parts.drop_last() + seq![last] =~= parts);
    }
}

/// Plain names with slashes between them do not start with a slash.
proof fn lemma_with_slashes_relative(parts: Seq<Seq<u8>>)
    requires
        forall|i: int| 0 <= i < parts.len() ==> is_plain(#[trigger] parts[i]),
    ensures
        parts.len() > 0 ==> with_slashes(parts).len() > 0,
        !absolute(with_slashes(parts)),
    decreases parts.len(),
{
    if parts.len() > 1 {
        lemma_with_slashes_relative(parts.drop_last());
        let head = with_slashes(parts.drop_last());
        assert((head.push(SLASH) + parts.last())[0] == head[0]);
    } else if parts.len() == 1 {
        assert(is_plain(parts[0]));
        if absolute(parts[0]) {
            assert(parts[0].contains(parts[0][0]));
        }
    }
}

/// A normalised path is normalised already: to normalise twice is to normalise once. A path that
/// starts at the root still does, and another one still does not.
pub proof fn normalized_is_idempotent(path: Seq<u8>)
    ensures
        normalized(normalized(path)) == normalized(path),
        absolute(normalized(path)) == absolute(path),
{
    let parts = split(path, SLASH);
    assert forall|i: int| 0 <= i < parts.len() implies !(#[trigger] parts[i]).contains(SLASH) by {
        lemma_split_has_no_slash(path, i);
    }
    let stack = stacked(parts);
    lemma_stacked_is_plain(parts);
    lemma_stacked_keeps_plain(stack);
    lemma_with_slashes_relative(stack);
    let names = with_slashes(stack);
    let out = normalized(path);
    let none = Seq::<u8>::empty();
    lemma_find(none, SLASH);
    assert(split(none, SLASH) =~= seq![none]);
    assert(seq![none].drop_last() =~= Seq::<Seq<u8>>::empty());
    assert(stacked(Seq::<Seq<u8>>::empty()) =~= Seq::<Seq<u8>>::empty());
    assert(stacked(seq![none]) =~= Seq::<Seq<u8>>::empty());
    if absolute(path) {
        lemma_split_at_slash(none, names);
        assert(none.push(SLASH) + names =~= out);
        if stack.len() > 0 {
            lemma_split_with_slashes(stack);
        } else {
            assert(names =~= none);
        }
        let again = seq![none] + split(names, SLASH);
        lemma_stacked_leading_empty(split(names, SLASH));
        assert(split(out, SLASH) == again);
    } else {
        if stack.len() > 0 {
            lemma_split_with_slashes(stack);
        } else {
            assert(names =~= none);
        }
    }
}

/// An empty part in front changes nothing.
proof fn lemma_stacked_leading_empty(parts: Seq<Seq<u8>>)
    ensures
        stacked(seq![Seq::<u8>::empty()] + parts) == stacked(parts),
    decreases parts.len(),
{
    let all = seq![Seq::<u8>::empty()] + parts;
    if parts.len() == 0 {
        assert(all.last() =~= Seq::<u8>::empty());
        assert(all.drop_last() =~= Seq::<Seq<u8>>::empty());
        assert(parts =~= Seq::<Seq<u8>>::empty());
        assert(stacked(parts) =~= Seq::<Seq<u8>>::empty());
    } else {
        lemma_stacked_leading_empty(parts.drop_last());
        assert(all.drop_last() =~= seq![Seq::<u8>::empty()] + parts.drop_last());
        assert(all.last() == parts.last());
    }
}

/// No part of a normalised path is a step up or a name for the directory it is in: each is a
/// plain name, but for an empty part at an end of the path.
pub proof fn normalized_has_plain_names(path: Seq<u8>)
    ensures
        ({
            let parts = split(normalized(path), SLASH);
            forall|i: int|
                0 <= i < parts.len() ==> {
                    &&& (#[trigger] parts[i]) != seq![DOT]
                    &&& parts[i] != seq![DOT, DOT]
                    &&& parts[i].len() == 0 ==> i == 0 || i == parts.len() - 1
                }
        }),
{
    let parts = split(path, SLASH);
    assert forall|i: int| 0 <= i < parts.len() implies !(#[trigger] parts[i]).contains(SLASH) by {
        lemma_split_has_no_slash(path, i);
    }
    let stack = stacked(parts);
    lemma_stacked_is_plain(parts);
    let names = with_slashes(stack);
    let out = normalized(path);
    let none = Seq::<u8>::empty();
    lemma_find(none, SLASH);
    assert(split(none, SLASH) =~= seq![none]);
    if stack.len() > 0 {
        lemma_split_with_slashes(stack);
    } else {
        assert(names =~= none);
    }
    if absolute(path) {
        lemma_split_at_slash(none, names);
        assert(none.push(SLASH) + names =~= out);
    }
    let again = split(out, SLASH);
    assert forall|i: int| 0 <= i < again.len() implies {
        &&& (#[trigger] again[i]) != seq![DOT]
        &&& again[i] != seq![DOT, DOT]
        &&& again[i].len() == 0 ==> i == 0 || i == again.len() - 1
    } by {
        assert(seq![DOT].len() == 1 && seq![DOT, DOT].len() == 2);
        if stack.len() > 0 {
            let k = if absolute(path) {
                i - 1
            } else {
                i
            };
            if k >= 0 {
                assert(again[i] == stack[k]);
                assert(is_plain(stack[k]));
            }
        }
    }
}

} // verus!
