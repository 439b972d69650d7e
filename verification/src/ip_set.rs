//! Sets and maps over address keys, and sorted lists of keys.
use crate::fx::{
    map_insert, map_keys, map_new, map_remove, set_contains, set_insert, set_keys, set_new,
    set_remove,
};
use crate::ip_key::{key_lt, key_order_is_total, IpKey};
use crate::netlink::rule::RuleAction;
use rustc_hash::{FxHashMap, FxHashSet};
use vstd::prelude::*;

verus! {

/// A set of addresses, one table for each family.
pub struct IpSet {
    v4: FxHashSet<u32>,
    v6: FxHashSet<u128>,
}

impl View for IpSet {
    type V = Set<IpKey>;

    closed spec fn view(&self) -> Set<IpKey> {
        Set::new(
            |k: IpKey|
                match k {
                    IpKey::V4(x) => self.v4@.contains(x),
                    IpKey::V6(x) => self.v6@.contains(x),
                },
        )
    }
}

impl IpSet {
    /// The empty set.
    pub fn new() -> (r: Self)
        ensures
            r@ == Set::<IpKey>::empty(),
    {
        let r = IpSet { v4: set_new(), v6: set_new() };
        assert(r@ =~= Set::<IpKey>::empty());
        r
    }

    /// Adds a key and tells whether it was absent.
    pub fn insert(&mut self, key: IpKey) -> (fresh: bool)
        ensures
            final(self)@ == old(self)@.insert(key),
            fresh == !old(self)@.contains(key),
    {
        let fresh = match key {
            IpKey::V4(x) => set_insert(&mut self.v4, x),
            IpKey::V6(x) => set_insert(&mut self.v6, x),
        };
        assert(self@ =~= old(self)@.insert(key));
        fresh
    }

    /// Takes a key out and tells whether it was there.
    pub fn remove(&mut self, key: &IpKey) -> (there: bool)
        ensures
            final(self)@ == old(self)@.remove(*key),
            there == old(self)@.contains(*key),
    {
        let there = match *key {
            IpKey::V4(x) => set_remove(&mut self.v4, &x),
            IpKey::V6(x) => set_remove(&mut self.v6, &x),
        };
        assert(self@ =~= old(self)@.remove(*key));
        there
    }

    /// Whether a key is in the set.
    pub fn contains(&self, key: &IpKey) -> (there: bool)
        ensures
            there == self@.contains(*key),
    {
        match *key {
            IpKey::V4(x) => set_contains(&self.v4, &x),
            IpKey::V6(x) => set_contains(&self.v6, &x),
        }
    }

    /// The keys, each once, in an order that is left open.
    pub fn keys(&self) -> (r: Vec<IpKey>)
        ensures
            r@.no_duplicates(),
            r@.to_set() == self@,
    {
        let v4 = set_keys(&self.v4);
        let v6 = set_keys(&self.v6);
        let r = join_keys(v4, v6);
        proof {
            lemma_join(v4@, v6@);
            assert forall|k: IpKey| r@.to_set().contains(k) == self@.contains(k) by {
                match k {
                    IpKey::V4(x) => {
                        assert(v4@.to_set().contains(x) == v4@.contains(x));
                    },
                    IpKey::V6(x) => {
                        assert(v6@.to_set().contains(x) == v6@.contains(x));
                    },
                }
            }
            assert(r@.to_set() =~= self@);
        }
        r
    }

    /// The keys in ascending order.
    pub fn sorted_keys(&self) -> (r: Vec<IpKey>)
        ensures
            r@ == sorted(self@),
            ascending(r@),
            r@.to_set() == self@,
    {
        let mut keys = self.keys();
        sort_dedup(&mut keys);
        keys
    }
}

/// What is to be done for each of some addresses, one table for each family.
pub struct PendingMap {
    v4: FxHashMap<u32, RuleAction>,
    v6: FxHashMap<u128, RuleAction>,
}

impl View for PendingMap {
    type V = Map<IpKey, RuleAction>;

    closed spec fn view(&self) -> Map<IpKey, RuleAction> {
        Map::new(
            |k: IpKey|
                match k {
                    IpKey::V4(x) => self.v4@.contains_key(x),
                    IpKey::V6(x) => self.v6@.contains_key(x),
                },
            |k: IpKey|
                match k {
                    IpKey::V4(x) => self.v4@[x],
                    IpKey::V6(x) => self.v6@[x],
                },
        )
    }
}

impl PendingMap {
    /// The empty map.
    pub fn new() -> (r: Self)
        ensures
            r@ == Map::<IpKey, RuleAction>::empty(),
    {
        let r = PendingMap { v4: map_new(), v6: map_new() };
        assert(r@ =~= Map::<IpKey, RuleAction>::empty());
        r
    }

    /// Sets what is to be done for an address.
    pub fn insert(&mut self, key: IpKey, action: RuleAction)
        ensures
            final(self)@ == old(self)@.insert(key, action),
    {
        match key {
            IpKey::V4(x) => {
                let _ = map_insert(&mut self.v4, x, action);
            },
            IpKey::V6(x) => {
                let _ = map_insert(&mut self.v6, x, action);
            },
        }
        assert(self@ =~= old(self)@.insert(key, action));
    }

    /// Takes an address out, and returns what was to be done for it.
    pub fn remove(&mut self, key: &IpKey) -> (had: Option<RuleAction>)
        ensures
            final(self)@ == old(self)@.remove(*key),
            had == (if old(self)@.contains_key(*key) {
                Some(old(self)@[*key])
            } else {
                None
            }),
    {
        let had = match *key {
            IpKey::V4(x) => map_remove(&mut self.v4, &x),
            IpKey::V6(x) => map_remove(&mut self.v6, &x),
        };
        assert(self@ =~= old(self)@.remove(*key));
        had
    }

    /// The addresses, each once, in an order that is left open.
    pub fn keys(&self) -> (r: Vec<IpKey>)
        ensures
            r@.no_duplicates(),
            r@.to_set() == self@.dom(),
    {
        let v4 = map_keys(&self.v4);
        let v6 = map_keys(&self.v6);
        let r = join_keys(v4, v6);
        proof {
            lemma_join(v4@, v6@);
            assert forall|k: IpKey| r@.to_set().contains(k) == self@.dom().contains(k) by {
                match k {
                    IpKey::V4(x) => {
                        assert(v4@.to_set().contains(x) == v4@.contains(x));
                    },
                    IpKey::V6(x) => {
                        assert(v6@.to_set().contains(x) == v6@.contains(x));
                    },
                }
            }
            assert(r@.to_set() =~= self@.dom());
        }
        r
    }

    /// Whether nothing is to be done.
    pub fn is_empty(&self) -> (r: bool)
        ensures
            r == (self@ == Map::<IpKey, RuleAction>::empty()),
            r == (self@.dom() == Set::<IpKey>::empty()),
    {
        let keys = self.keys();
        let r = keys.len() == 0;
        proof {
            if r {
                assert(keys@.to_set() =~= Set::<IpKey>::empty());
                assert(self@ =~= Map::<IpKey, RuleAction>::empty());
            } else {
                assert(keys@.to_set().contains(keys@[0]));
            }
        }
        r
    }
}

// ---------------------------------------------------------------------------
// Lists of keys
// ---------------------------------------------------------------------------

/// The keys of both families, IPv4 first.
pub open spec fn joined(v4: Seq<u32>, v6: Seq<u128>) -> Seq<IpKey> {
    Seq::new(
        v4.len() + v6.len(),
        |i: int|
            if i < v4.len() {
                IpKey::V4(v4[i])
            } else {
                IpKey::V6(v6[i - v4.len()])
            },
    )
}

/// The keys of both families, IPv4 first.
fn join_keys(v4: Vec<u32>, v6: Vec<u128>) -> (r: Vec<IpKey>)
    ensures
        r@ == joined(v4@, v6@),
{
    let mut out: Vec<IpKey> = Vec::new();
    for i in 0..v4.len()
        invariant
            out@.len() == i,
            forall|j: int| 0 <= j < i ==> out@[j] == IpKey::V4(v4@[j]),
    {
        out.push(IpKey::V4(v4[i]));
    }
    for i in 0..v6.len()
        invariant
            out@.len() == v4@.len() + i,
            forall|j: int| 0 <= j < v4@.len() ==> out@[j] == IpKey::V4(v4@[j]),
            forall|j: int|
                v4@.len() <= j < out@.len() ==> out@[j] == IpKey::V6(v6@[j - v4@.len()]),
    {
        out.push(IpKey::V6(v6[i]));
    }
    assert(out@ =~= joined(v4@, v6@));
    out
}

/// The joined list holds exactly the keys of the two lists, each once.
proof fn lemma_join(v4: Seq<u32>, v6: Seq<u128>)
    requires
        v4.no_duplicates(),
        v6.no_duplicates(),
    ensures
        joined(v4, v6).no_duplicates(),
        forall|x: u32| joined(v4, v6).to_set().contains(IpKey::V4(x)) == v4.contains(x),
        forall|x: u128| joined(v4, v6).to_set().contains(IpKey::V6(x)) == v6.contains(x),
{
    let all = joined(v4, v6);
    assert forall|x: u32| all.to_set().contains(IpKey::V4(x)) == v4.contains(x) by {
        if v4.contains(x) {
            let i = choose|i: int| 0 <= i < v4.len() && v4[i] == x;
            assert(all[i] == IpKey::V4(x));
        }
    }
    assert forall|x: u128| all.to_set().contains(IpKey::V6(x)) == v6.contains(x) by {
        if v6.contains(x) {
            let i = choose|i: int| 0 <= i < v6.len() && v6[i] == x;
            assert(all[v4.len() + i] == IpKey::V6(x));
        }
    }
}

/// Whether every key comes before the ones after it.
pub open spec fn ascending(keys: Seq<IpKey>) -> bool {
    forall|i: int, j: int| 0 <= i < j < keys.len() ==> key_lt(#[trigger] keys[i], #[trigger] keys[j])
}

/// The keys of a set in ascending order.
pub open spec fn sorted(keys: Set<IpKey>) -> Seq<IpKey> {
    choose|s: Seq<IpKey>| #[trigger] ascending(s) && s.to_set() == keys
}

/// An ascending list is the sorted list of its keys.
pub proof fn lemma_sorted(s: Seq<IpKey>, keys: Set<IpKey>)
    requires
        ascending(s),
        s.to_set() == keys,
    ensures
        s == sorted(keys),
{
    ascending_is_unique(s, sorted(keys));
}

/// The first place in an ascending list whose key comes after a key.
spec fn place_for(s: Seq<IpKey>, k: IpKey) -> int
    decreases s.len(),
{
    if s.len() == 0 || key_lt(k, s[0]) {
        0
    } else {
        1 + place_for(s.drop_first(), k)
    }
}

/// The keys before that place come before the key, and those from it on after it.
proof fn lemma_place_for(s: Seq<IpKey>, k: IpKey)
    requires
        ascending(s),
        !s.contains(k),
    ensures
        0 <= place_for(s, k) <= s.len(),
        forall|i: int| 0 <= i < place_for(s, k) ==> key_lt(#[trigger] s[i], k),
        forall|i: int| place_for(s, k) <= i < s.len() ==> key_lt(k, #[trigger] s[i]),
    decreases s.len(),
{
    if s.len() > 0 {
        assert(s.contains(s[0]));
        if key_lt(k, s[0]) {
            assert forall|i: int| 0 <= i < s.len() implies key_lt(k, #[trigger] s[i]) by {
                if i > 0 {
                    assert(key_lt(s[0], s[i]));
                    key_order_is_total(k, s[0], s[i]);
                }
            }
        } else {
            key_order_is_total(s[0], k, k);
            let rest = s.drop_first();
            assert(ascending(rest)) by {
                assert forall|i: int, j: int| 0 <= i < j < rest.len() implies key_lt(
                    #[trigger] rest[i],
                    #[trigger] rest[j],
                ) by {
                    assert(key_lt(s[i + 1], s[j + 1]));
                }
            }
            assert(!rest.contains(k)) by {
                if rest.contains(k) {
                    let i = choose|i: int| 0 <= i < rest.len() && rest[i] == k;
                    assert(s[i + 1] == k);
                }
            }
            lemma_place_for(rest, k);
            assert forall|i: int| 0 <= i < place_for(s, k) implies key_lt(#[trigger] s[i], k) by {
                if i > 0 {
                    assert(key_lt(rest[i - 1], k));
                }
            }
            assert forall|i: int| place_for(s, k) <= i < s.len() implies key_lt(
                k,
                #[trigger] s[i],
            ) by {
                assert(key_lt(k, rest[i - 1]));
            }
        }
    }
}

/// The sorted list of a finite set is ascending, and holds the keys of the set.
pub proof fn sorted_lists_its_set(keys: Set<IpKey>)
    requires
        keys.finite(),
    ensures
        ascending(sorted(keys)),
        sorted(keys).to_set() == keys,
    decreases keys.len(),
{
    if keys.len() == 0 {
        let none = Seq::<IpKey>::empty();
        assert(keys =~= Set::<IpKey>::empty());
        assert(none.to_set() =~= keys);
        assert(ascending(none));
    } else {
        let k = keys.choose();
        sorted_lists_its_set(keys.remove(k));
        let s = sorted(keys.remove(k));
        assert(!s.contains(k)) by {
            assert(!keys.remove(k).contains(k));
            assert(s.to_set().contains(k) == s.contains(k));
        }
        lemma_place_for(s, k);
        let p = place_for(s, k);
        let t = s.insert(p, k);
        assert(ascending(t)) by {
            assert forall|i: int, j: int| 0 <= i < j < t.len() implies key_lt(
                #[trigger] t[i],
                #[trigger] t[j],
            ) by {
                let a = if i < p {
                    i
                } else {
                    i - 1
                };
                let b = if j < p {
                    j
                } else {
                    j - 1
                };
                if i != p && j != p {
                    assert(key_lt(s[a], s[b]));
                } else if i == p {
                    assert(key_lt(k, s[b]));
                } else {
                    assert(key_lt(s[a], k));
                }
            }
        }
        assert forall|x: IpKey| t.to_set().contains(x) == keys.contains(x) by {
            assert(s.to_set().contains(x) == keys.remove(k).contains(x));
            if t.contains(x) {
                let i = choose|i: int| 0 <= i < t.len() && t[i] == x;
                if i < p {
                    assert(s[i] == x);
                } else if i > p {
                    assert(s[i - 1] == x);
                }
            }
            if s.contains(x) {
                let i = choose|i: int| 0 <= i < s.len() && s[i] == x;
                if i < p {
                    assert(t[i] == x);
                } else {
                    assert(t[i + 1] == x);
                }
            }
            assert(t[p] == k);
        }
        assert(t.to_set() =~= keys);
    }
}

/// Whether no number comes after a smaller one.
pub open spec fn nondescending(v: Seq<u128>) -> bool {
    forall|i: int, j: int| 0 <= i <= j < v.len() ==> #[trigger] v[i] <= #[trigger] v[j]
}

/// `slice::sort_unstable` on numbers: the same numbers, each as often as before, in ascending
/// order.
#[verifier::external_body]
fn sort_numbers(v: &mut Vec<u128>)
    ensures
        nondescending(final(v)@),
        final(v)@.to_multiset() == old(v)@.to_multiset(),
{
    v.sort_unstable();
}

/// Puts numbers in ascending order and drops those that stand there twice.
fn sort_dedup_numbers(v: &mut Vec<u128>)
    ensures
        forall|i: int, j: int| 0 <= i < j < final(v)@.len() ==> final(v)@[i] < final(v)@[j],
        final(v)@.to_set() == old(v)@.to_set(),
{
    sort_numbers(v);
    let ghost sorted = v@;
    proof {
        broadcast use vstd::seq_lib::group_to_multiset_ensures;
        assert forall|x: u128| sorted.contains(x) == old(v)@.contains(x) by {
            assert(sorted.to_multiset().count(x) == old(v)@.to_multiset().count(x));
        }
        assert(sorted.to_set() =~= old(v)@.to_set());
    }
    let mut out: Vec<u128> = Vec::new();
    for i in 0..v.len()
        invariant
            v@ == sorted,
            nondescending(sorted),
            forall|a: int, b: int| 0 <= a < b < out@.len() ==> out@[a] < out@[b],
            forall|a: int| 0 <= a < i ==> out@.contains(sorted[a]),
            forall|a: int| 0 <= a < out@.len() ==> sorted.contains(out@[a]),
            i > 0 ==> out@.len() > 0 && out@.last() == sorted[i - 1],
            i == 0 ==> out@.len() == 0,
    {
        let x: u128 = v[i];
        let n: usize = out.len();
        if n == 0 || out[n - 1] != x {
            let ghost before = out@;
            assert(n > 0 ==> out@.last() <= x);
            out.push(x);
            assert forall|a: int| 0 <= a < i + 1 implies out@.contains(sorted[a]) by {
                if a < i {
                    let k = choose|k: int| 0 <= k < before.len() && before[k] == sorted[a];
                    assert(out@[k] == sorted[a]);
                } else {
                    assert(out@[n as int] == x);
                }
            }
            assert(sorted.contains(sorted[i as int]));
        } else {
            assert(out@.contains(out@[n - 1]));
        }
    }
    assert(out@.to_set() =~= sorted.to_set());
    *v = out;
}

/// Puts keys in ascending order and drops those that stand there twice.
pub fn sort_dedup(keys: &mut Vec<IpKey>)
    ensures
        final(keys)@ == sorted(old(keys)@.to_set()),
        ascending(final(keys)@),
        final(keys)@.to_set() == old(keys)@.to_set(),
{
    let mut v4: Vec<u128> = Vec::new();
    let mut v6: Vec<u128> = Vec::new();
    for i in 0..keys.len()
        invariant
            keys@ == old(keys)@,
            forall|j: int| 0 <= j < v4@.len() ==> v4@[j] <= u32::MAX,
            forall|j: int|
                0 <= j < v4@.len() ==> keys@.contains(IpKey::V4(#[trigger] v4@[j] as u32)),
            forall|j: int| 0 <= j < v6@.len() ==> keys@.contains(IpKey::V6(#[trigger] v6@[j])),
            forall|j: int|
                0 <= j < i ==> match #[trigger] keys@[j] {
                    IpKey::V4(x) => v4@.contains(x as u128),
                    IpKey::V6(x) => v6@.contains(x),
                },
    {
        let ghost v4_before = v4@;
        let ghost v6_before = v6@;
        assert(keys@.contains(keys@[i as int]));
        match keys[i] {
            IpKey::V4(x) => {
                v4.push(x as u128);
                assert(v4@[v4_before.len() as int] == x as u128);
            },
            IpKey::V6(x) => {
                v6.push(x);
                assert(v6@[v6_before.len() as int] == x);
            },
        }
        assert forall|j: int| 0 <= j < i + 1 implies match #[trigger] keys@[j] {
            IpKey::V4(x) => v4@.contains(x as u128),
            IpKey::V6(x) => v6@.contains(x),
        } by {
            match keys@[j] {
                IpKey::V4(x) => {
                    if j < i {
                        let k = choose|k: int|
                            0 <= k < v4_before.len() && v4_before[k] == x as u128;
                        assert(v4@[k] == x as u128);
                    }
                },
                IpKey::V6(x) => {
                    if j < i {
                        let k = choose|k: int| 0 <= k < v6_before.len() && v6_before[k] == x;
                        assert(v6@[k] == x);
                    }
                },
            }
        }
    }
    let ghost a = v4@;
    let ghost b = v6@;
    sort_dedup_numbers(&mut v4);
    sort_dedup_numbers(&mut v6);
    proof {
        assert forall|x: u128| v4@.contains(x) == a.contains(x) by {
            assert(v4@.to_set().contains(x) == a.to_set().contains(x));
        }
        assert forall|x: u128| v6@.contains(x) == b.contains(x) by {
            assert(v6@.to_set().contains(x) == b.to_set().contains(x));
        }
        assert forall|j: int| 0 <= j < v4@.len() implies #[trigger] v4@[j] <= u32::MAX by {
            assert(v4@.contains(v4@[j]));
            assert(a.contains(v4@[j]));
        }
    }
    let mut low: Vec<u32> = Vec::new();
    for i in 0..v4.len()
        invariant
            low@.len() == i,
            forall|j: int| 0 <= j < v4@.len() ==> #[trigger] v4@[j] <= u32::MAX,
            forall|j: int| 0 <= j < i ==> #[trigger] low@[j] == v4@[j],
    {
        low.push(v4[i] as u32);
    }
    let ghost before = keys@;
    *keys = join_keys(low, v6);
    proof {
        assert(ascending(keys@));
        assert forall|k: IpKey| keys@.contains(k) == before.contains(k) by {
            match k {
                IpKey::V4(x) => {
                    if keys@.contains(k) {
                        let i = choose|i: int| 0 <= i < keys@.len() && keys@[i] == k;
                        assert(low@[i] == x);
                        assert(v4@.contains(v4@[i]));
                        assert(a.contains(v4@[i]));
                        let j = choose|j: int| 0 <= j < a.len() && a[j] == v4@[i];
                        assert(before.contains(IpKey::V4(a[j] as u32)));
                    }
                    if before.contains(k) {
                        let j = choose|j: int| 0 <= j < before.len() && before[j] == k;
                        assert(a.contains(x as u128));
                        let i = choose|i: int| 0 <= i < v4@.len() && v4@[i] == x as u128;
                        assert(low@[i] == x);
                        assert(keys@[i] == k);
                    }
                },
                IpKey::V6(x) => {
                    if keys@.contains(k) {
                        let i = choose|i: int| 0 <= i < keys@.len() && keys@[i] == k;
                        assert(v6@.contains(v6@[i - low@.len()]));
                        assert(b.contains(x));
                        let j = choose|j: int| 0 <= j < b.len() && b[j] == x;
                        assert(before.contains(IpKey::V6(b[j])));
                    }
                    if before.contains(k) {
                        let j = choose|j: int| 0 <= j < before.len() && before[j] == k;
                        assert(b.contains(x));
                        let i = choose|i: int| 0 <= i < v6@.len() && v6@[i] == x;
                        assert(keys@[low@.len() + i] == k);
                    }
                },
            }
        }
        assert(keys@.to_set() =~= before.to_set());
        lemma_sorted(keys@, before.to_set());
    }
}

/// Two ascending lists of the same keys are the same list.
pub proof fn ascending_is_unique(a: Seq<IpKey>, b: Seq<IpKey>)
    requires
        ascending(a),
        ascending(b),
        a.to_set() == b.to_set(),
    ensures
        a == b,
    decreases a.len(),
{
    if a.len() == 0 {
        if b.len() > 0 {
            assert(b.to_set().contains(b[0]));
            assert(a.to_set().contains(b[0]));
        }
        assert(a =~= b);
    } else {
        assert(a.to_set().contains(a.last()));
        assert(b.to_set().contains(a.last()));
        let i = choose|i: int| 0 <= i < b.len() && b[i] == a.last();
        assert(b.to_set().contains(b.last()));
        assert(a.to_set().contains(b.last()));
        let j = choose|j: int| 0 <= j < a.len() && a[j] == b.last();
        if j < a.len() - 1 {
            assert(key_lt(a[j], a[a.len() - 1]));
        }
        if i < b.len() - 1 {
            assert(key_lt(b[i], b[b.len() - 1]));
        }
        assert(a.last() == b.last());
        let x = a.drop_last();
        let y = b.drop_last();
        assert forall|k: IpKey| x.to_set().contains(k) == y.to_set().contains(k) by {
            if x.contains(k) {
                let p = choose|p: int| 0 <= p < x.len() && x[p] == k;
                assert(key_lt(a[p], a.last()));
                assert(a.to_set().contains(a[p]));
                let q = choose|q: int| 0 <= q < b.len() && b[q] == k;
                assert(y[q] == k);
            }
            if y.contains(k) {
                let p = choose|p: int| 0 <= p < y.len() && y[p] == k;
                assert(key_lt(b[p], b.last()));
                assert(b.to_set().contains(b[p]));
                let q = choose|q: int| 0 <= q < a.len() && a[q] == k;
                assert(x[q] == k);
            }
        }
        assert(x.to_set() =~= y.to_set());
        ascending_is_unique(x, y);
        assert(a =~= x.push(a.last()));
        assert(b =~= y.push(b.last()));
    }
}

} // verus!
