//! The active offerings of one collection, under dense positional ids.

use vstd::prelude::*;

verus! {

/// An amount of one denomination.
#[derive(Clone, Debug, PartialEq, Eq)]
pub struct Asset {
    pub denom: String,
    pub amount: u128,
}

impl Asset {
    pub fn duplicate(&self) -> (r: Asset)
        ensures
            r == *self,
    {
        Asset { denom: self.denom.clone(), amount: self.amount }
    }
}

/// A token listed for sale at a fixed price.
#[derive(Clone, Debug, PartialEq, Eq)]
pub struct Offering {
    pub token_id: String,
    pub seller: String,
    pub list_price: Asset,
}

impl Offering {
    pub fn duplicate(&self) -> (r: Offering)
        ensures
            r == *self,
    {
        Offering {
            token_id: self.token_id.clone(),
            seller: self.seller.clone(),
            list_price: self.list_price.duplicate(),
        }
    }
}

/// Ids in strictly ascending order.
pub open spec fn sorted(s: Seq<(u64, Offering)>) -> bool {
    forall|i: int, j: int| 0 <= i < j < s.len() ==> s[i].0 < s[j].0
}

pub open spec fn has_id(s: Seq<(u64, Offering)>, id: u64) -> bool {
    exists|i: int| 0 <= i < s.len() && s[i].0 == id
}

/// The offering stored under `id`, if any.
pub open spec fn lookup(s: Seq<(u64, Offering)>, id: u64) -> Option<Offering> {
    if has_id(s, id) {
        Some(s[choose|i: int| 0 <= i < s.len() && s[i].0 == id].1)
    } else {
        None
    }
}

/// The offerings that `ids` asks for, in the order asked, absent ids skipped.
pub open spec fn batch_spec(s: Seq<(u64, Offering)>, ids: Seq<u64>) -> Seq<(u64, Offering)>
    decreases ids.len(),
{
    if ids.len() == 0 {
        Seq::empty()
    } else {
        let front = batch_spec(s, ids.drop_last());
        match lookup(s, ids.last()) {
            Some(o) => front.push((ids.last(), o)),
            None => front,
        }
    }
}

/// The ids `1, ..., n` in order.
pub open spec fn dense_range(n: nat) -> Seq<u64> {
    Seq::new(n, |i: int| (i + 1) as u64)
}

/// A batch read only returns offerings that are there, each under its own
/// id, and never more than were asked for; ids with nothing under them are
/// skipped without error.
pub proof fn lemma_batch_returns_present(s: Seq<(u64, Offering)>, ids: Seq<u64>)
    ensures
        batch_spec(s, ids).len() <= ids.len(),
        forall|k: int|
            0 <= k < batch_spec(s, ids).len() ==> lookup(s, (#[trigger] batch_spec(s, ids)[k]).0)
                == Some(batch_spec(s, ids)[k].1),
        (forall|k: int| 0 <= k < ids.len() ==> lookup(s, #[trigger] ids[k]) is None) ==> batch_spec(
            s,
            ids,
        ).len() == 0,
    decreases ids.len(),
{
    if ids.len() > 0 {
        lemma_batch_returns_present(s, ids.drop_last());
        if forall|k: int| 0 <= k < ids.len() ==> lookup(s, #[trigger] ids[k]) is None {
            assert forall|k: int| 0 <= k < ids.drop_last().len() implies lookup(
                s,
                #[trigger] ids.drop_last()[k],
            ) is None by {
                assert(ids.drop_last()[k] == ids[k]);
            }
            assert(lookup(s, ids[ids.len() - 1]) is None);
        }
    }
}

pub proof fn lemma_lookup_at(s: Seq<(u64, Offering)>, i: int)
    requires
        sorted(s),
        0 <= i < s.len(),
    ensures
        lookup(s, s[i].0) == Some(s[i].1),
{
    assert(has_id(s, s[i].0));
    let j = choose|j: int| 0 <= j < s.len() && s[j].0 == s[i].0;
    if j < i {
        assert(s[j].0 < s[i].0);
    } else if i < j {
        assert(s[i].0 < s[j].0);
    }
}

proof fn lemma_update_at(s: Seq<(u64, Offering)>, p: int, o: Offering)
    requires
        sorted(s),
        0 <= p < s.len(),
    ensures
        sorted(s.update(p, (s[p].0, o))),
        forall|k: u64|
            #[trigger] lookup(s.update(p, (s[p].0, o)), k) == if k == s[p].0 {
                Some(o)
            } else {
                lookup(s, k)
            },
{
    let t = s.update(p, (s[p].0, o));
    assert forall|k: u64| #[trigger]
        lookup(t, k) == if k == s[p].0 {
            Some(o)
        } else {
            lookup(s, k)
        } by {
        if k == s[p].0 {
            lemma_lookup_at(t, p);
        } else if has_id(s, k) {
            let i = choose|i: int| 0 <= i < s.len() && s[i].0 == k;
            lemma_lookup_at(s, i);
            lemma_lookup_at(t, i);
        } else {
            assert(!has_id(t, k));
        }
    }
}

proof fn lemma_insert_at(s: Seq<(u64, Offering)>, p: int, id: u64, o: Offering)
    requires
        sorted(s),
        0 <= p <= s.len(),
        forall|i: int| 0 <= i < p ==> s[i].0 < id,
        forall|i: int| p <= i < s.len() ==> s[i].0 > id,
    ensures
        sorted(s.insert(p, (id, o))),
        forall|k: u64|
            #[trigger] lookup(s.insert(p, (id, o)), k) == if k == id {
                Some(o)
            } else {
                lookup(s, k)
            },
{
    let t = s.insert(p, (id, o));
    assert(sorted(t)) by {
        assert forall|i: int, j: int| 0 <= i < j < t.len() implies t[i].0 < t[j].0 by {
            if j < p {
            } else if j == p {
            } else if i < p {
                assert(t[j] == s[j - 1]);
            } else if i == p {
                assert(t[j] == s[j - 1]);
            } else {
                assert(t[i] == s[i - 1]);
                assert(t[j] == s[j - 1]);
            }
        }
    }
    assert forall|k: u64| #[trigger]
        lookup(t, k) == if k == id {
            Some(o)
        } else {
            lookup(s, k)
        } by {
        if k == id {
            lemma_lookup_at(t, p);
        } else if has_id(s, k) {
            let i = choose|i: int| 0 <= i < s.len() && s[i].0 == k;
            lemma_lookup_at(s, i);
            if i < p {
                lemma_lookup_at(t, i);
            } else {
                assert(t[i + 1] == s[i]);
                lemma_lookup_at(t, i + 1);
            }
        } else {
            assert(!has_id(t, k)) by {
                if has_id(t, k) {
                    let j = choose|j: int| 0 <= j < t.len() && t[j].0 == k;
                    if j < p {
                        assert(s[j].0 == k);
                    } else if j > p {
                        assert(s[j - 1].0 == k);
                    }
                }
            }
        }
    }
}

proof fn lemma_remove_at(s: Seq<(u64, Offering)>, p: int)
    requires
        sorted(s),
        0 <= p < s.len(),
    ensures
        sorted(s.remove(p)),
        forall|k: u64|
            #[trigger] lookup(s.remove(p), k) == if k == s[p].0 {
                None
            } else {
                lookup(s, k)
            },
{
    let t = s.remove(p);
    assert(sorted(t)) by {
        assert forall|i: int, j: int| 0 <= i < j < t.len() implies t[i].0 < t[j].0 by {
            if j < p {
            } else if i < p {
                assert(t[j] == s[j + 1]);
            } else {
                assert(t[i] == s[i + 1]);
                assert(t[j] == s[j + 1]);
            }
        }
    }
    assert forall|k: u64| #[trigger]
        lookup(t, k) == if k == s[p].0 {
            None
        } else {
            lookup(s, k)
        } by {
        if has_id(t, k) {
            let j = choose|j: int| 0 <= j < t.len() && t[j].0 == k;
            if j < p {
                lemma_lookup_at(t, j);
                lemma_lookup_at(s, j);
                assert(s[j].0 < s[p].0);
            } else {
                assert(t[j] == s[j + 1]);
                lemma_lookup_at(t, j);
                lemma_lookup_at(s, j + 1);
                assert(s[p].0 < s[j + 1].0);
            }
        } else if k != s[p].0 && has_id(s, k) {
            let i = choose|i: int| 0 <= i < s.len() && s[i].0 == k;
            if i < p {
                assert(t[i].0 == k);
            } else {
                assert(t[i - 1].0 == k);
            }
        }
    }
}

/// The active offerings of one collection, keyed by positional id, with the
/// counter of the last occupied slot.
#[derive(Debug)]
pub struct OfferingStore {
    pub entries: Vec<(u64, Offering)>,
    pub next_slot: u64,
}

impl OfferingStore {
    pub open spec fn wf(&self) -> bool {
        sorted(self.entries@)
    }

    /// The ids in use are exactly `1, ..., next_slot`.
    pub open spec fn dense(&self) -> bool {
        &&& self.entries@.len() == self.next_slot
        &&& forall|i: int| 0 <= i < self.entries@.len() ==> #[trigger] self.entries@[i].0 == i + 1
    }

    pub open spec fn get_spec(&self, id: u64) -> Option<Offering> {
        lookup(self.entries@, id)
    }

    /// What the compacting delete of `id` makes of `pre`.
    pub open spec fn compacted(pre: OfferingStore, post: OfferingStore, id: u64) -> bool {
        &&& post.wf()
        &&& {
                let n = pre.next_slot;
                if n > 0 && id == n {
                    &&& post.next_slot == n - 1
                    &&& forall|k: u64|
                        #[trigger] lookup(post.entries@, k) == if k == id {
                            None
                        } else {
                            lookup(pre.entries@, k)
                        }
                } else if n > 0 && lookup(pre.entries@, n) is Some {
                    &&& post.next_slot == n - 1
                    &&& forall|k: u64|
                        #[trigger] lookup(post.entries@, k) == if k == n {
                            None
                        } else if k == id {
                            lookup(pre.entries@, n)
                        } else {
                            lookup(pre.entries@, k)
                        }
                } else {
                    post == pre
                }
            }
    }

    /// Whether the ids stand in strictly ascending order.
    pub fn check_sorted(&self) -> (r: bool)
        ensures
            r ==> self.wf(),
    {
        let n = self.entries.len();
        let mut i: usize = 1;
        while i < n
            invariant
                n == self.entries@.len(),
                1 <= i,
                i <= n || n == 0,
                forall|a: int, b: int| 0 <= a < b < i && b < n ==> self.entries@[a].0 < self.entries@[b].0,
            decreases n - i,
        {
            if self.entries[i - 1].0 >= self.entries[i].0 {
                return false;
            }
            assert forall|a: int, b: int| 0 <= a < b < i + 1 && b < n implies self.entries@[a].0
                < self.entries@[b].0 by {
                if b == i && a < i - 1 {
                    assert(self.entries@[a].0 < self.entries@[i - 1].0);
                }
            }
            i = i + 1;
        }
        true
    }

    /// A store with no offerings whose slot counter starts at `next_slot`.
    pub fn new(next_slot: u64) -> (r: OfferingStore)
        ensures
            r.wf(),
            r.next_slot == next_slot,
            r.entries@.len() == 0,
            next_slot == 0 ==> r.dense(),
    {
        OfferingStore { entries: Vec::new(), next_slot }
    }

    /// Where `id` is stored, if anywhere.
    fn find(&self, id: u64) -> (r: Option<usize>)
        ensures
            r matches Some(i) ==> i < self.entries@.len() && self.entries@[i as int].0 == id,
            r is None ==> !has_id(self.entries@, id),
    {
        let mut i: usize = 0;
        while i < self.entries.len()
            invariant
                i <= self.entries@.len(),
                forall|j: int| 0 <= j < i ==> self.entries@[j].0 != id,
            decreases self.entries@.len() - i,
        {
            if self.entries[i].0 == id {
                return Some(i);
            }
            i = i + 1;
        }
        None
    }

    /// The offering stored under `id`.
    pub fn load(&self, id: u64) -> (r: Option<Offering>)
        requires
            self.wf(),
        ensures
            r == self.get_spec(id),
    {
        match self.find(id) {
            Some(i) => {
                proof {
                    lemma_lookup_at(self.entries@, i as int);
                }
                Some(self.entries[i].1.duplicate())
            },
            None => None,
        }
    }

    /// Stores `o` under `id`, replacing what was there; the slot counter is
    /// left as it is.
    pub fn set(&mut self, id: u64, o: Offering)
        requires
            old(self).wf(),
        ensures
            final(self).wf(),
            final(self).next_slot == old(self).next_slot,
            forall|k: u64|
                #[trigger] lookup(final(self).entries@, k) == if k == id {
                    Some(o)
                } else {
                    lookup(old(self).entries@, k)
                },
            has_id(old(self).entries@, id) ==> exists|i: int|
                0 <= i < old(self).entries@.len() && old(self).entries@[i].0 == id
                    && final(self).entries@ == old(self).entries@.update(i, (id, o)),
            (forall|i: int| 0 <= i < old(self).entries@.len() ==> old(self).entries@[i].0 < id)
                ==> final(self).entries@ == old(self).entries@.push((id, o)),
    {
        match self.find(id) {
            Some(i) => {
                proof {
                    lemma_update_at(self.entries@, i as int, o);
                }
                self.entries.set(i, (id, o));
            },
            None => {
                let mut p: usize = 0;
                while p < self.entries.len() && self.entries[p].0 < id
                    invariant
                        p <= self.entries@.len(),
                        forall|j: int| 0 <= j < p ==> self.entries@[j].0 < id,
                    decreases self.entries@.len() - p,
                {
                    p = p + 1;
                }
                proof {
                    assert forall|j: int| p <= j < self.entries@.len() implies self.entries@[j].0
                        > id by {
                        assert(self.entries@[j].0 != id);
                        if j > p {
                            assert(self.entries@[p as int].0 < self.entries@[j].0);
                        }
                    }
                    lemma_insert_at(self.entries@, p as int, id, o);
                    if forall|i: int| 0 <= i < self.entries@.len() ==> self.entries@[i].0 < id {
                        if p < self.entries@.len() {
                            assert(self.entries@[p as int].0 < id);
                        }
                        assert(self.entries@.insert(p as int, (id, o)) =~= self.entries@.push(
                            (id, o),
                        ));
                    }
                }
                self.entries.insert(p, (id, o));
            },
        }
    }

    /// Deletes what is stored under `id`, if anything; the slot counter is
    /// left as it is.
    fn delete(&mut self, id: u64)
        requires
            old(self).wf(),
        ensures
            final(self).wf(),
            final(self).next_slot == old(self).next_slot,
            forall|k: u64|
                #[trigger] lookup(final(self).entries@, k) == if k == id {
                    None
                } else {
                    lookup(old(self).entries@, k)
                },
            forall|i: int|
                0 <= i < old(self).entries@.len() && old(self).entries@[i].0 == id
                    ==> final(self).entries@ == old(self).entries@.remove(i),
    {
        match self.find(id) {
            Some(i) => {
                proof {
                    lemma_remove_at(self.entries@, i as int);
                    assert forall|j: int|
                        0 <= j < self.entries@.len() && self.entries@[j].0 == id implies j
                        == i by {
                        if j < i {
                            assert(self.entries@[j].0 < self.entries@[i as int].0);
                        } else if i < j {
                            assert(self.entries@[i as int].0 < self.entries@[j].0);
                        }
                    }
                }
                self.entries.remove(i);
            },
            None => {},
        }
    }

    /// Lists `o` at the slot after the last one and returns its id; `None`,
    /// with nothing changed, where the slot counter is at its largest value.
    pub fn insert(&mut self, o: Offering) -> (r: Option<u64>)
        requires
            old(self).wf(),
        ensures
            final(self).wf(),
            r is None <==> old(self).next_slot == u64::MAX,
            r is None ==> *final(self) == *old(self),
            r matches Some(id) ==> {
                &&& id == old(self).next_slot + 1
                &&& final(self).next_slot == id
                &&& forall|k: u64|
                    #[trigger] lookup(final(self).entries@, k) == if k == id {
                        Some(o)
                    } else {
                        lookup(old(self).entries@, k)
                    }
            },
            old(self).dense() ==> final(self).dense(),
    {
        if self.next_slot == u64::MAX {
            return None;
        }
        let id = self.next_slot + 1;
        let ghost before = self.entries@;
        self.set(id, o);
        self.next_slot = id;
        proof {
            if old(self).dense() {
                assert forall|i: int| 0 <= i < before.len() implies before[i].0 < id by {
                    assert(before[i].0 == i + 1);
                }
                assert(self.entries@ == before.push((id, o)));
                assert forall|i: int| 0 <= i < self.entries@.len() implies #[trigger] self.entries@[i].0
                    == i + 1 by {
                    if i < before.len() {
                        assert(self.entries@[i] == before[i]);
                    }
                }
            }
        }
        Some(id)
    }

    /// Compacting delete of the offering under `id`. The last slot is simply
    /// vacated; from any other slot the offering of the last slot moves into
    /// `id`. Either way the slot counter goes down by one. Where the last slot
    /// holds nothing and `id` is not it, nothing changes.
    pub fn remove(&mut self, id: u64)
        requires
            old(self).wf(),
        ensures
            final(self).wf(),
            OfferingStore::compacted(*old(self), *final(self), id),
            old(self).dense() && 1 <= id <= old(self).next_slot ==> final(self).dense(),
    {
        let n = self.next_slot;
        let ghost before = self.entries@;
        if n > 0 && id == n {
            self.delete(id);
            self.next_slot = n - 1;
            proof {
                if old(self).dense() {
                    assert(before[n - 1].0 == id);
                    assert(self.entries@ == before.remove(n - 1));
                    assert forall|i: int| 0 <= i < self.entries@.len() implies #[trigger] self.entries@[i].0
                        == i + 1 by {
                        assert(self.entries@[i] == before[i]);
                    }
                }
            }
        } else if n > 0 {
            match self.load(n) {
                Some(tail) => {
                    let ghost t = tail;
                    self.set(id, tail);
                    let ghost mid = self.entries@;
                    self.delete(n);
                    self.next_slot = n - 1;
                    proof {
                        if old(self).dense() && 1 <= id <= n {
                            assert(before[id - 1].0 == id);
                            assert(has_id(before, id));
                            let i = choose|i: int|
                                0 <= i < before.len() && before[i].0 == id && mid == before.update(
                                    i,
                                    (id, t),
                                );
                            assert(before[i].0 == i + 1);
                            assert(mid[n - 1] == before[n - 1]);
                            assert(mid[n - 1].0 == n);
                            assert(self.entries@ == mid.remove(n - 1));
                            assert forall|j: int| 0 <= j < self.entries@.len() implies #[trigger] self.entries@[j].0
                                == j + 1 by {
                                assert(self.entries@[j] == mid[j]);
                                assert(before[j].0 == j + 1);
                            }
                        }
                    }
                },
                None => {},
            }
        }
    }

    /// The ids in use, ascending.
    pub fn list_ids(&self) -> (r: Vec<u64>)
        requires
            self.wf(),
        ensures
            r@ == self.entries@.map_values(|e: (u64, Offering)| e.0),
            self.dense() ==> r@ == dense_range(self.next_slot as nat),
    {
        let mut r: Vec<u64> = Vec::new();
        let mut i: usize = 0;
        while i < self.entries.len()
            invariant
                i <= self.entries@.len(),
                r@ == self.entries@.take(i as int).map_values(|e: (u64, Offering)| e.0),
            decreases self.entries@.len() - i,
        {
            r.push(self.entries[i].0);
            i = i + 1;
            assert(self.entries@.take(i as int).map_values(|e: (u64, Offering)| e.0) =~= r@);
        }
        assert(self.entries@.take(i as int) =~= self.entries@);
        proof {
            if self.dense() {
                assert(r@ =~= dense_range(self.next_slot as nat));
            }
        }
        r
    }

    /// The offerings under the requested ids, in the order requested; ids
    /// with no offering are skipped.
    pub fn batch_get(&self, ids: &Vec<u64>) -> (r: Vec<(u64, Offering)>)
        requires
            self.wf(),
        ensures
            r@ == batch_spec(self.entries@, ids@),
    {
        let mut r: Vec<(u64, Offering)> = Vec::new();
        let mut i: usize = 0;
        while i < ids.len()
            invariant
                self.wf(),
                i <= ids@.len(),
                r@ == batch_spec(self.entries@, ids@.take(i as int)),
            decreases ids@.len() - i,
        {
            let id = ids[i];
            assert(ids@.take(i as int + 1).drop_last() =~= ids@.take(i as int));
            match self.load(id) {
                Some(o) => {
                    r.push((id, o));
                },
                None => {},
            }
            i = i + 1;
        }
        assert(ids@.take(i as int) =~= ids@);
        r
    }
}

} // verus!
