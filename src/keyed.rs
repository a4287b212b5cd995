//! Small association lists with unique keys: by name, and by number.

use vstd::prelude::*;

verus! {

/// Entries keyed by name, each name at most once.
#[derive(Debug)]
pub struct NameMap<V> {
    pub entries: Vec<(String, V)>,
}

/// Entries keyed by number, each number at most once.
#[derive(Debug)]
pub struct IdMap<V> {
    pub entries: Vec<(u64, V)>,
}

pub open spec fn names_unique<V>(s: Seq<(String, V)>) -> bool {
    forall|i: int, j: int| 0 <= i < s.len() && 0 <= j < s.len() && i != j ==> s[i].0@ != s[j].0@
}

pub open spec fn name_value<V>(s: Seq<(String, V)>, k: Seq<char>) -> Option<V> {
    if exists|i: int| 0 <= i < s.len() && s[i].0@ == k {
        Some(s[choose|i: int| 0 <= i < s.len() && s[i].0@ == k].1)
    } else {
        None
    }
}

pub open spec fn ids_unique<V>(s: Seq<(u64, V)>) -> bool {
    forall|i: int, j: int| 0 <= i < s.len() && 0 <= j < s.len() && i != j ==> s[i].0 != s[j].0
}

pub open spec fn id_value<V>(s: Seq<(u64, V)>, k: u64) -> Option<V> {
    if exists|i: int| 0 <= i < s.len() && s[i].0 == k {
        Some(s[choose|i: int| 0 <= i < s.len() && s[i].0 == k].1)
    } else {
        None
    }
}

proof fn lemma_name_value_at<V>(s: Seq<(String, V)>, i: int)
    requires
        names_unique(s),
        0 <= i < s.len(),
    ensures
        name_value(s, s[i].0@) == Some(s[i].1),
{
    let k = s[i].0@;
    assert(exists|j: int| 0 <= j < s.len() && s[j].0@ == k);
}

proof fn lemma_id_value_at<V>(s: Seq<(u64, V)>, i: int)
    requires
        ids_unique(s),
        0 <= i < s.len(),
    ensures
        id_value(s, s[i].0) == Some(s[i].1),
{
    let k = s[i].0;
    assert(exists|j: int| 0 <= j < s.len() && s[j].0 == k);
}

impl<V> NameMap<V> {
    /// Whether every key appears once.
    pub fn check_unique(&self) -> (r: bool)
        ensures
            r ==> self.wf(),
    {
        let n = self.entries.len();
        let mut i: usize = 0;
        while i < n
            invariant
                n == self.entries@.len(),
                i <= n,
                forall|a: int, b: int|
                    0 <= a < i && 0 <= b < n && a != b ==> self.entries@[a].0@ != self.entries@[b].0@,
            decreases n - i,
        {
            let mut j: usize = 0;
            while j < n
                invariant
                    n == self.entries@.len(),
                    i < n,
                    j <= n,
                    forall|a: int, b: int|
                        0 <= a < i && 0 <= b < n && a != b ==> self.entries@[a].0@ != self.entries@[b].0@,
                    forall|b: int| 0 <= b < j && b != i ==> self.entries@[i as int].0@ != self.entries@[b].0@,
                decreases n - j,
            {
                if j != i && self.entries[i].0 == self.entries[j].0 {
                    return false;
                }
                j = j + 1;
            }
            i = i + 1;
        }
        true
    }

    pub open spec fn wf(&self) -> bool {
        names_unique(self.entries@)
    }

    pub open spec fn value(&self, k: Seq<char>) -> Option<V> {
        name_value(self.entries@, k)
    }

    pub fn new() -> (r: NameMap<V>)
        ensures
            r.wf(),
            forall|k: Seq<char>| #[trigger] r.value(k) is None,
    {
        NameMap { entries: Vec::new() }
    }

    /// Where `k` is stored, if anywhere.
    pub fn find(&self, k: &String) -> (r: Option<usize>)
        requires
            self.wf(),
        ensures
            r matches Some(i) ==> i < self.entries@.len() && self.entries@[i as int].0@ == k@
                && self.value(k@) == Some(self.entries@[i as int].1),
            r is None ==> self.value(k@) is None,
    {
        let mut i: usize = 0;
        while i < self.entries.len()
            invariant
                self.wf(),
                i <= self.entries@.len(),
                forall|j: int| 0 <= j < i ==> self.entries@[j].0@ != k@,
            decreases self.entries@.len() - i,
        {
            if self.entries[i].0 == *k {
                proof {
                    lemma_name_value_at(self.entries@, i as int);
                }
                return Some(i);
            }
            i = i + 1;
        }
        None
    }

    /// Stores `v` under `k`, replacing what was there.
    pub fn put(&mut self, k: String, v: V)
        requires
            old(self).wf(),
        ensures
            final(self).wf(),
            forall|d: Seq<char>|
                #[trigger] final(self).value(d) == if d == k@ {
                    Some(v)
                } else {
                    old(self).value(d)
                },
    {
        let ghost s = self.entries@;
        let ghost kk = k@;
        match self.find(&k) {
            Some(i) => {
                self.entries.set(i, (k, v));
                proof {
                    let t = self.entries@;
                    assert(names_unique(t));
                    assert forall|d: Seq<char>| #[trigger]
                        name_value(t, d) == if d == kk {
                            Some(v)
                        } else {
                            name_value(s, d)
                        } by {
                        if d == kk {
                            lemma_name_value_at(t, i as int);
                        } else if exists|j: int| 0 <= j < s.len() && s[j].0@ == d {
                            let j = choose|j: int| 0 <= j < s.len() && s[j].0@ == d;
                            lemma_name_value_at(s, j);
                            lemma_name_value_at(t, j);
                        } else {
                            assert(!exists|j: int| 0 <= j < t.len() && t[j].0@ == d);
                        }
                    }
                }
            },
            None => {
                self.entries.push((k, v));
                proof {
                    let t = self.entries@;
                    assert(forall|j: int| 0 <= j < s.len() ==> s[j].0@ != kk);
                    assert(names_unique(t));
                    assert forall|d: Seq<char>| #[trigger]
                        name_value(t, d) == if d == kk {
                            Some(v)
                        } else {
                            name_value(s, d)
                        } by {
                        if d == kk {
                            lemma_name_value_at(t, s.len() as int);
                        } else if exists|j: int| 0 <= j < s.len() && s[j].0@ == d {
                            let j = choose|j: int| 0 <= j < s.len() && s[j].0@ == d;
                            lemma_name_value_at(s, j);
                            lemma_name_value_at(t, j);
                        } else {
                            assert(!exists|j: int| 0 <= j < t.len() && t[j].0@ == d);
                        }
                    }
                }
            },
        }
    }
}

impl<V> IdMap<V> {
    /// Whether every key appears once.
    pub fn check_unique(&self) -> (r: bool)
        ensures
            r ==> self.wf(),
    {
        let n = self.entries.len();
        let mut i: usize = 0;
        while i < n
            invariant
                n == self.entries@.len(),
                i <= n,
                forall|a: int, b: int|
                    0 <= a < i && 0 <= b < n && a != b ==> self.entries@[a].0 != self.entries@[b].0,
            decreases n - i,
        {
            let mut j: usize = 0;
            while j < n
                invariant
                    n == self.entries@.len(),
                    i < n,
                    j <= n,
                    forall|a: int, b: int|
                        0 <= a < i && 0 <= b < n && a != b ==> self.entries@[a].0 != self.entries@[b].0,
                    forall|b: int| 0 <= b < j && b != i ==> self.entries@[i as int].0 != self.entries@[b].0,
                decreases n - j,
            {
                if j != i && self.entries[i].0 == self.entries[j].0 {
                    return false;
                }
                j = j + 1;
            }
            i = i + 1;
        }
        true
    }

    pub open spec fn wf(&self) -> bool {
        ids_unique(self.entries@)
    }

    pub open spec fn value(&self, k: u64) -> Option<V> {
        id_value(self.entries@, k)
    }

    pub fn new() -> (r: IdMap<V>)
        ensures
            r.wf(),
            forall|k: u64| #[trigger] r.value(k) is None,
    {
        IdMap { entries: Vec::new() }
    }

    /// Where `k` is stored, if anywhere.
    pub fn find(&self, k: u64) -> (r: Option<usize>)
        requires
            self.wf(),
        ensures
            r matches Some(i) ==> i < self.entries@.len() && self.entries@[i as int].0 == k
                && self.value(k) == Some(self.entries@[i as int].1),
            r is None ==> self.value(k) is None,
    {
        let mut i: usize = 0;
        while i < self.entries.len()
            invariant
                self.wf(),
                i <= self.entries@.len(),
                forall|j: int| 0 <= j < i ==> self.entries@[j].0 != k,
            decreases self.entries@.len() - i,
        {
            if self.entries[i].0 == k {
                proof {
                    lemma_id_value_at(self.entries@, i as int);
                }
                return Some(i);
            }
            i = i + 1;
        }
        None
    }

    /// Stores `v` under `k`, replacing what was there.
    pub fn put(&mut self, k: u64, v: V)
        requires
            old(self).wf(),
        ensures
            final(self).wf(),
            forall|d: u64|
                #[trigger] final(self).value(d) == if d == k {
                    Some(v)
                } else {
                    old(self).value(d)
                },
    {
        let ghost s = self.entries@;
        match self.find(k) {
            Some(i) => {
                self.entries.set(i, (k, v));
                proof {
                    let t = self.entries@;
                    assert(ids_unique(t));
                    assert forall|d: u64| #[trigger]
                        id_value(t, d) == if d == k {
                            Some(v)
                        } else {
                            id_value(s, d)
                        } by {
                        if d == k {
                            lemma_id_value_at(t, i as int);
                        } else if exists|j: int| 0 <= j < s.len() && s[j].0 == d {
                            let j = choose|j: int| 0 <= j < s.len() && s[j].0 == d;
                            lemma_id_value_at(s, j);
                            lemma_id_value_at(t, j);
                        } else {
                            assert(!exists|j: int| 0 <= j < t.len() && t[j].0 == d);
                        }
                    }
                }
            },
            None => {
                self.entries.push((k, v));
                proof {
                    let t = self.entries@;
                    assert(forall|j: int| 0 <= j < s.len() ==> s[j].0 != k);
                    assert(ids_unique(t));
                    assert forall|d: u64| #[trigger]
                        id_value(t, d) == if d == k {
                            Some(v)
                        } else {
                            id_value(s, d)
                        } by {
                        if d == k {
                            lemma_id_value_at(t, s.len() as int);
                        } else if exists|j: int| 0 <= j < s.len() && s[j].0 == d {
                            let j = choose|j: int| 0 <= j < s.len() && s[j].0 == d;
                            lemma_id_value_at(s, j);
                            lemma_id_value_at(t, j);
                        } else {
                            assert(!exists|j: int| 0 <= j < t.len() && t[j].0 == d);
                        }
                    }
                }
            },
        }
    }
}

} // verus!
