//! An ordered map from 128-bit keys to entries: lookups by key, by rank and
//! by nearest key, kept as a sequence of entries in increasing key order.
use vstd::prelude::*;

verus! {

/// One entry: a key, its value and an index the caller may use freely.
#[derive(Clone, Copy, Debug, PartialEq, Eq, Structural)]
pub struct RBNode {
    pub key: u128,
    pub value: usize,
    pub idx: usize,
}

impl RBNode {
    /// An entry with key and value zero and no index (`usize::MAX`).
    pub fn new() -> (r: RBNode)
        ensures
            r.key == 0,
            r.value == 0,
            r.idx == usize::MAX,
    {
        RBNode { key: 0, value: 0, idx: usize::MAX }
    }
}

/// The keys of `s` strictly increase.
pub open spec fn sorted_keys(s: Seq<RBNode>) -> bool {
    forall|i: int, j: int| 0 <= i < j < s.len() ==> #[trigger] s[i].key < #[trigger] s[j].key
}

/// Some entry of `s` has key `k`.
pub open spec fn seq_has(s: Seq<RBNode>, k: u128) -> bool {
    exists|i: int| 0 <= i < s.len() && #[trigger] s[i].key == k
}

/// A position of `s` whose entry has key `k`, when there is one.
pub open spec fn seq_pos(s: Seq<RBNode>, k: u128) -> int {
    choose|i: int| 0 <= i < s.len() && #[trigger] s[i].key == k
}

/// The entries of `s` by key.
pub open spec fn seq_map(s: Seq<RBNode>) -> Map<u128, RBNode> {
    Map::new(|k: u128| seq_has(s, k), |k: u128| s[seq_pos(s, k)])
}

/// `r` entries of `s` have keys below `k`, and they come first.
pub open spec fn splits_at(s: Seq<RBNode>, k: u128, r: int) -> bool {
    &&& 0 <= r <= s.len()
    &&& forall|i: int| 0 <= i < r ==> #[trigger] s[i].key < k
    &&& forall|i: int| r <= i < s.len() ==> #[trigger] s[i].key >= k
}

/// In a sorted sequence the map finds each entry under its own key.
pub proof fn lemma_seq_map_index(s: Seq<RBNode>, i: int)
    requires
        sorted_keys(s),
        0 <= i < s.len(),
    ensures
        seq_map(s).contains_key(s[i].key),
        seq_map(s)[s[i].key] == s[i],
{
    assert(seq_has(s, s[i].key));
    let j = seq_pos(s, s[i].key);
    if j < i {
        assert(s[j].key < s[i].key);
    } else if j > i {
        assert(s[i].key < s[j].key);
    }
}

/// Inserting a new key at its place keeps the order and adds one entry.
pub proof fn lemma_seq_map_insert(s: Seq<RBNode>, p: int, n: RBNode)
    requires
        sorted_keys(s),
        splits_at(s, n.key, p),
        !seq_has(s, n.key),
    ensures
        sorted_keys(s.insert(p, n)),
        seq_map(s.insert(p, n)) =~= seq_map(s).insert(n.key, n),
{
    let t = s.insert(p, n);
    assert(p < s.len() ==> s[p].key != n.key);
    assert forall|i: int, j: int| 0 <= i < j < t.len() implies #[trigger] t[i].key < #[trigger] t[j].key by {
        if j < p {
        } else if j == p {
        } else if i < p {
            assert(s[j - 1].key >= n.key);
            assert(s[j - 1].key != n.key);
        } else if i == p {
            assert(s[j - 1].key >= n.key);
            assert(s[j - 1].key != n.key);
        } else {
            assert(s[i - 1].key < s[j - 1].key);
        }
    }
    assert forall|k: u128| #[trigger] seq_map(t).contains_key(k) == seq_map(s).insert(n.key, n).contains_key(k) by {
        if seq_has(t, k) {
            let j = choose|j: int| 0 <= j < t.len() && #[trigger] t[j].key == k;
            if j < p {
                assert(s[j].key == k);
            } else if j > p {
                assert(s[j - 1].key == k);
            }
        }
        if seq_has(s, k) {
            let j = choose|j: int| 0 <= j < s.len() && #[trigger] s[j].key == k;
            if j < p {
                assert(t[j].key == k);
            } else {
                assert(t[j + 1].key == k);
            }
        }
        if k == n.key {
            assert(t[p].key == k);
        }
    }
    assert forall|k: u128| #[trigger] seq_map(t).contains_key(k) implies seq_map(t)[k] == seq_map(s).insert(n.key, n)[k] by {
        let j = choose|j: int| 0 <= j < t.len() && #[trigger] t[j].key == k;
        lemma_seq_map_index(t, j);
        if j < p {
            lemma_seq_map_index(s, j);
        } else if j > p {
            lemma_seq_map_index(s, j - 1);
        }
    }
}

/// Replacing an entry by one with the same key keeps the order.
pub proof fn lemma_seq_map_update(s: Seq<RBNode>, p: int, n: RBNode)
    requires
        sorted_keys(s),
        0 <= p < s.len(),
        s[p].key == n.key,
    ensures
        sorted_keys(s.update(p, n)),
        seq_map(s.update(p, n)) =~= seq_map(s).insert(n.key, n),
{
    let t = s.update(p, n);
    assert forall|i: int, j: int| 0 <= i < j < t.len() implies #[trigger] t[i].key < #[trigger] t[j].key by {
        assert(s[i].key < s[j].key);
    }
    assert forall|k: u128| #[trigger] seq_map(t).contains_key(k) == seq_map(s).insert(n.key, n).contains_key(k) by {
        if seq_has(t, k) {
            let j = choose|j: int| 0 <= j < t.len() && #[trigger] t[j].key == k;
            assert(s[j].key == k);
        }
        if seq_has(s, k) {
            let j = choose|j: int| 0 <= j < s.len() && #[trigger] s[j].key == k;
            assert(t[j].key == k);
        }
    }
    assert forall|k: u128| #[trigger] seq_map(t).contains_key(k) implies seq_map(t)[k] == seq_map(s).insert(n.key, n)[k] by {
        let j = choose|j: int| 0 <= j < t.len() && #[trigger] t[j].key == k;
        lemma_seq_map_index(t, j);
        if j != p {
            lemma_seq_map_index(s, j);
        }
    }
}

/// Removing an entry keeps the order and removes its key.
pub proof fn lemma_seq_map_remove(s: Seq<RBNode>, p: int)
    requires
        sorted_keys(s),
        0 <= p < s.len(),
    ensures
        sorted_keys(s.remove(p)),
        seq_map(s.remove(p)) =~= seq_map(s).remove(s[p].key),
{
    let t = s.remove(p);
    let kp = s[p].key;
    assert forall|i: int, j: int| 0 <= i < j < t.len() implies #[trigger] t[i].key < #[trigger] t[j].key by {
        if j < p {
        } else if i < p {
            assert(s[i].key < s[j + 1].key);
        } else {
            assert(s[i + 1].key < s[j + 1].key);
        }
    }
    assert forall|k: u128| #[trigger] seq_map(t).contains_key(k) == seq_map(s).remove(kp).contains_key(k) by {
        if seq_has(t, k) {
            let j = choose|j: int| 0 <= j < t.len() && #[trigger] t[j].key == k;
            if j < p {
                assert(s[j].key == k);
                assert(s[j].key < kp);
            } else {
                assert(s[j + 1].key == k);
                assert(kp < s[j + 1].key);
            }
        }
        if seq_has(s, k) && k != kp {
            let j = choose|j: int| 0 <= j < s.len() && #[trigger] s[j].key == k;
            if j < p {
                assert(t[j].key == k);
            } else {
                assert(j != p);
                assert(t[j - 1].key == k);
            }
        }
    }
    assert forall|k: u128| #[trigger] seq_map(t).contains_key(k) implies seq_map(t)[k] == seq_map(s).remove(kp)[k] by {
        let j = choose|j: int| 0 <= j < t.len() && #[trigger] t[j].key == k;
        lemma_seq_map_index(t, j);
        if j < p {
            lemma_seq_map_index(s, j);
        } else {
            lemma_seq_map_index(s, j + 1);
        }
    }
}

/// The value stored under `k` in `m`, if any.
pub open spec fn get_spec(m: Map<u128, RBNode>, k: u128) -> Option<usize> {
    if m.contains_key(k) { Some(m[k].value) } else { None }
}

/// `m` after storing `n`: a new key gets the whole entry, a present key
/// only the new value.
pub open spec fn put_spec(m: Map<u128, RBNode>, n: RBNode) -> Map<u128, RBNode> {
    if m.contains_key(n.key) {
        m.insert(n.key, RBNode { key: n.key, value: n.value, idx: m[n.key].idx })
    } else {
        m.insert(n.key, n)
    }
}

/// An ordered map from keys to entries.
pub struct RBTree {
    nodes: Vec<RBNode>,
}

impl View for RBTree {
    type V = Map<u128, RBNode>;

    open spec fn view(&self) -> Map<u128, RBNode> {
        seq_map(self.entries())
    }
}

impl RBTree {
    /// The entries in increasing key order.
    pub closed spec fn entries(&self) -> Seq<RBNode> {
        self.nodes@
    }

    /// The entries are in strictly increasing key order.
    pub closed spec fn wf(&self) -> bool {
        sorted_keys(self.nodes@)
    }

    /// Each entry is found under its own key, and each key leads to an entry.
    pub proof fn lemma_view(&self)
        requires
            self.wf(),
        ensures
            sorted_keys(self.entries()),
            forall|i: int| 0 <= i < self.entries().len() ==> #[trigger] self@.contains_key(self.entries()[i].key)
                && self@[self.entries()[i].key] == self.entries()[i],
            forall|k: u128| #[trigger] self@.contains_key(k) ==> seq_has(self.entries(), k) && self@[k].key == k,
    {
        assert forall|i: int| 0 <= i < self.entries().len() implies #[trigger] self@.contains_key(self.entries()[i].key)
            && self@[self.entries()[i].key] == self.entries()[i] by {
            lemma_seq_map_index(self.nodes@, i);
        }
        assert forall|k: u128| #[trigger] self@.contains_key(k) implies seq_has(self.entries(), k) && self@[k].key == k by {
            let j = choose|j: int| 0 <= j < self.nodes@.len() && #[trigger] self.nodes@[j].key == k;
            lemma_seq_map_index(self.nodes@, j);
        }
    }

    /// An empty tree.
    pub fn new() -> (r: RBTree)
        ensures
            r.wf(),
            r.entries() == Seq::<RBNode>::empty(),
            r@ == Map::<u128, RBNode>::empty(),
    {
        let r = RBTree { nodes: Vec::new() };
        assert(r@ =~= Map::<u128, RBNode>::empty());
        r
    }

    /// The number of entries.
    pub fn size(&self) -> (r: u128)
        ensures
            r == self.entries().len(),
    {
        self.nodes.len() as u128
    }

    /// The number of entries whose key is below `key`.
    fn position(&self, key: u128) -> (r: usize)
        requires
            self.wf(),
        ensures
            splits_at(self.entries(), key, r as int),
    {
        let mut lo: usize = 0;
        let mut hi: usize = self.nodes.len();
        while lo < hi
            invariant
                self.wf(),
                0 <= lo <= hi <= self.nodes@.len(),
                forall|i: int| 0 <= i < lo ==> #[trigger] self.nodes@[i].key < key,
                forall|i: int| hi <= i < self.nodes@.len() ==> #[trigger] self.nodes@[i].key >= key,
            decreases hi - lo,
        {
            let mid = lo + (hi - lo) / 2;
            if self.nodes[mid].key < key {
                assert forall|i: int| 0 <= i <= mid implies #[trigger] self.nodes@[i].key < key by {
                    if i < mid {
                        assert(self.nodes@[i].key < self.nodes@[mid as int].key);
                    }
                }
                lo = mid + 1;
            } else {
                assert forall|i: int| mid <= i < self.nodes@.len() implies #[trigger] self.nodes@[i].key >= key by {
                    if i > mid {
                        assert(self.nodes@[mid as int].key < self.nodes@[i].key);
                    }
                }
                hi = mid;
            }
        }
        lo
    }

    /// The smallest key, or zero when the tree is empty.
    pub fn min(&self) -> (r: u128)
        ensures
            r == (if self.entries().len() == 0 { 0 } else { self.entries()[0].key }),
    {
        if self.nodes.len() == 0 {
            0
        } else {
            self.nodes[0].key
        }
    }

    /// The largest key, or zero when the tree is empty.
    pub fn max(&self) -> (r: u128)
        ensures
            r == (if self.entries().len() == 0 { 0 } else { self.entries().last().key }),
    {
        let n = self.nodes.len();
        if n == 0 {
            0
        } else {
            self.nodes[n - 1].key
        }
    }

    /// The entry with the smallest key at or above `key`, if any.
    pub fn ceiling_node(&self, key: u128) -> (r: Option<RBNode>)
        requires
            self.wf(),
        ensures
            match r {
                Some(n) => self@.contains_key(n.key) && self@[n.key] == n && key <= n.key
                    && forall|q: u128| #[trigger] self@.contains_key(q) && key <= q ==> n.key <= q,
                None => forall|q: u128| #[trigger] self@.contains_key(q) ==> q < key,
            },
    {
        let p = self.position(key);
        proof { self.lemma_view(); }
        if p < self.nodes.len() {
            let n = self.nodes[p];
            proof {
                assert forall|q: u128| #[trigger] self@.contains_key(q) && key <= q implies n.key <= q by {
                    let j = choose|j: int| 0 <= j < self.nodes@.len() && #[trigger] self.nodes@[j].key == q;
                    if j > p {
                        assert(self.nodes@[p as int].key < self.nodes@[j].key);
                    }
                }
            }
            Some(n)
        } else {
            proof {
                assert forall|q: u128| #[trigger] self@.contains_key(q) implies q < key by {
                    let j = choose|j: int| 0 <= j < self.nodes@.len() && #[trigger] self.nodes@[j].key == q;
                }
            }
            None
        }
    }

    /// The smallest key at or above `key`, if any.
    pub fn ceiling(&self, key: u128) -> (r: Option<u128>)
        requires
            self.wf(),
        ensures
            match r {
                Some(x) => self@.contains_key(x) && key <= x
                    && forall|q: u128| #[trigger] self@.contains_key(q) && key <= q ==> x <= q,
                None => forall|q: u128| #[trigger] self@.contains_key(q) ==> q < key,
            },
    {
        match self.ceiling_node(key) {
            Some(n) => Some(n.key),
            None => None,
        }
    }

    /// The largest key at or below `key`, if any.
    pub fn floor(&self, key: u128) -> (r: Option<u128>)
        requires
            self.wf(),
        ensures
            match r {
                Some(x) => self@.contains_key(x) && x <= key
                    && forall|q: u128| #[trigger] self@.contains_key(q) && q <= key ==> q <= x,
                None => forall|q: u128| #[trigger] self@.contains_key(q) ==> key < q,
            },
    {
        let p = self.position(key);
        proof { self.lemma_view(); }
        if p < self.nodes.len() && self.nodes[p].key == key {
            Some(key)
        } else if p > 0 {
            let x = self.nodes[p - 1].key;
            proof {
                assert forall|q: u128| #[trigger] self@.contains_key(q) && q <= key implies q <= x by {
                    let j = choose|j: int| 0 <= j < self.nodes@.len() && #[trigger] self.nodes@[j].key == q;
                    if j < p - 1 {
                        assert(self.nodes@[j].key < self.nodes@[p - 1].key);
                    } else if j >= p {
                        assert(j == p ==> self.nodes@[j].key != key);
                    }
                }
            }
            Some(x)
        } else {
            proof {
                assert forall|q: u128| #[trigger] self@.contains_key(q) implies key < q by {
                    let j = choose|j: int| 0 <= j < self.nodes@.len() && #[trigger] self.nodes@[j].key == q;
                    assert(j == 0 ==> self.nodes@[j].key != key);
                    if j > 0 {
                        assert(self.nodes@[0].key < self.nodes@[j].key);
                    }
                }
            }
            None
        }
    }

    /// The key of rank `k` (the `k`-th smallest, from zero), if there are
    /// more than `k` entries.
    pub fn select(&self, k: u128) -> (r: Option<u128>)
        ensures
            r == (if k < self.entries().len() { Some(self.entries()[k as int].key) } else { None }),
    {
        if k < self.nodes.len() as u128 {
            Some(self.nodes[k as usize].key)
        } else {
            None
        }
    }

    /// The number of keys below `key`.
    pub fn rank(&self, key: u128) -> (r: u128)
        requires
            self.wf(),
        ensures
            splits_at(self.entries(), key, r as int),
    {
        self.position(key) as u128
    }

    /// The value stored under `key`, if any.
    pub fn get(&self, key: u128) -> (r: Option<usize>)
        requires
            self.wf(),
        ensures
            r == get_spec(self@, key),
    {
        let p = self.position(key);
        proof { self.lemma_position_has(key, p as int); }
        if p < self.nodes.len() && self.nodes[p].key == key {
            Some(self.nodes[p].value)
        } else {
            None
        }
    }

    /// Stores `node` under its key; when the key is present only the stored
    /// value changes.
    pub fn put(&mut self, node: RBNode)
        requires
            old(self).wf(),
        ensures
            final(self).wf(),
            final(self)@ == put_spec(old(self)@, node),
            final(self).entries().len() == old(self).entries().len() + (if old(self)@.contains_key(node.key) { 0int } else { 1int }),
            old(self)@.contains_key(node.key) ==> exists|p: int| 0 <= p < old(self).entries().len()
                && #[trigger] old(self).entries()[p].key == node.key
                && final(self).entries() == old(self).entries().update(p, RBNode { value: node.value, ..old(self).entries()[p] }),
            !old(self)@.contains_key(node.key) ==> exists|p: int| 0 <= p <= old(self).entries().len()
                && final(self).entries() == #[trigger] old(self).entries().insert(p, node),
    {
        let p = self.position(node.key);
        proof { self.lemma_position_has(node.key, p as int); }
        if p < self.nodes.len() && self.nodes[p].key == node.key {
            let cur = self.nodes[p];
            let upd = RBNode { key: cur.key, value: node.value, idx: cur.idx };
            proof { lemma_seq_map_update(self.nodes@, p as int, upd); }
            self.nodes.set(p, upd);
        } else {
            proof { lemma_seq_map_insert(self.nodes@, p as int, node); }
            self.nodes.insert(p, node);
        }
    }

    /// Removes the entry under `key`, which must be present.
    pub fn delete(&mut self, key: u128)
        requires
            old(self).wf(),
            old(self)@.contains_key(key),
        ensures
            final(self).wf(),
            final(self)@ == old(self)@.remove(key),
            final(self).entries().len() == old(self).entries().len() - 1,
            exists|p: int| 0 <= p < old(self).entries().len() && #[trigger] old(self).entries()[p].key == key
                && final(self).entries() == old(self).entries().remove(p),
    {
        let p = self.position(key);
        proof {
            self.lemma_position_has(key, p as int);
            lemma_seq_map_remove(self.nodes@, p as int);
        }
        self.nodes.remove(p);
    }

    /// Removes the entry with the smallest key; the tree must not be empty.
    pub fn delete_min(&mut self)
        requires
            old(self).wf(),
            old(self).entries().len() > 0,
        ensures
            final(self).wf(),
            final(self).entries() == old(self).entries().subrange(1, old(self).entries().len() as int),
            final(self)@ == old(self)@.remove(old(self).entries()[0].key),
    {
        proof { lemma_seq_map_remove(self.nodes@, 0); }
        self.nodes.remove(0);
        assert(self.nodes@ =~= old(self).entries().subrange(1, old(self).entries().len() as int));
    }

    /// Removes the entry with the largest key; the tree must not be empty.
    pub fn delete_max(&mut self)
        requires
            old(self).wf(),
            old(self).entries().len() > 0,
        ensures
            final(self).wf(),
            final(self).entries() == old(self).entries().drop_last(),
            final(self)@ == old(self)@.remove(old(self).entries().last().key),
    {
        let n = self.nodes.len();
        proof { lemma_seq_map_remove(self.nodes@, n - 1); }
        self.nodes.remove(n - 1);
        assert(self.nodes@ =~= old(self).entries().drop_last());
    }

    /// Where the position of a key splits the entries, the key is present
    /// exactly when the entry at that position has it.
    proof fn lemma_position_has(&self, key: u128, p: int)
        requires
            self.wf(),
            splits_at(self.entries(), key, p),
        ensures
            self@.contains_key(key) <==> (p < self.entries().len() && self.entries()[p].key == key),
            p < self.entries().len() && self.entries()[p].key == key ==> self@[key] == self.entries()[p],
    {
        if p < self.entries().len() && self.entries()[p].key == key {
            lemma_seq_map_index(self.nodes@, p);
        }
        if seq_has(self.nodes@, key) {
            let j = choose|j: int| 0 <= j < self.nodes@.len() && #[trigger] self.nodes@[j].key == key;
            if j < p {
                assert(self.nodes@[j].key < key);
            } else if j > p {
                assert(self.nodes@[p].key < self.nodes@[j].key);
            }
        }
    }
}

/// A lookup after storing an entry finds the stored value under its key and
/// what was there before under every other key.
pub proof fn lemma_get_after_put(m: Map<u128, RBNode>, n: RBNode, k: u128)
    ensures
        get_spec(put_spec(m, n), k) == (if k == n.key { Some(n.value) } else { get_spec(m, k) }),
{
}

/// A lookup after removing a key finds nothing under it and what was there
/// before under every other key.
pub proof fn lemma_get_after_delete(m: Map<u128, RBNode>, d: u128, k: u128)
    ensures
        get_spec(m.remove(d), k) == (if k == d { None } else { get_spec(m, k) }),
{
}

/// Rank and select undo each other: the key of rank `i` has `i` keys below
/// it, and a present key is the key of its own rank.
pub proof fn lemma_rank_select(t: &RBTree, i: int, k: u128)
    requires
        t.wf(),
    ensures
        0 <= i < t.entries().len() ==> splits_at(t.entries(), t.entries()[i].key, i),
        t@.contains_key(k) ==> forall|r: int| #[trigger] splits_at(t.entries(), k, r) ==> r < t.entries().len() && t.entries()[r].key == k,
{
    t.lemma_view();
    if 0 <= i < t.entries().len() {
        assert forall|j: int| 0 <= j < i implies #[trigger] t.entries()[j].key < t.entries()[i].key by {}
        assert forall|j: int| i <= j < t.entries().len() implies #[trigger] t.entries()[j].key >= t.entries()[i].key by {
            if j > i {
                assert(t.entries()[i].key < t.entries()[j].key);
            }
        }
    }
    if t@.contains_key(k) {
        assert forall|r: int| #[trigger] splits_at(t.entries(), k, r) implies r < t.entries().len() && t.entries()[r].key == k by {
            let j = choose|j: int| 0 <= j < t.entries().len() && #[trigger] t.entries()[j].key == k;
            if j < r {
                assert(t.entries()[j].key < k);
            } else if j > r {
                assert(t.entries()[r].key < t.entries()[j].key);
            }
        }
    }
}

} // verus!
