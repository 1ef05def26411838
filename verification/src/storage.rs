//! Stored backtest results, keyed by result id.
use vstd::prelude::*;
use crate::text::{string_views, text_le, sort_strings};

verus! {

/// Backtest results by id; saving under a stored id replaces that result.
pub struct ResultStore<R> {
    results: Vec<(String, R)>,
}

spec fn result_slot<R>(s: Seq<(String, R)>, id: Seq<char>) -> int {
    if exists|i: int| 0 <= i < s.len() && s[i].0@ == id {
        choose|i: int| 0 <= i < s.len() && s[i].0@ == id
    } else {
        -1
    }
}

impl<R> ResultStore<R> {
    /// The stored ids, in order of first saving.
    pub closed spec fn ids(self) -> Seq<Seq<char>> {
        Seq::new(self.results@.len(), |i: int| self.results@[i].0@)
    }

    /// The result stored under `id`.
    pub closed spec fn result(self, id: Seq<char>) -> Option<R> {
        let i = result_slot(self.results@, id);
        if i >= 0 {
            Some(self.results@[i].1)
        } else {
            None
        }
    }

    /// No id is stored twice.
    pub closed spec fn wf(self) -> bool {
        forall|i: int, j: int| 0 <= i < j < self.results@.len() ==> self.results@[i].0@ != self.results@[j].0@
    }

    proof fn lemma_at(self, i: int)
        requires
            self.wf(),
            0 <= i < self.results@.len(),
        ensures
            self.result(self.results@[i].0@) == Some(self.results@[i].1),
            self.ids()[i] == self.results@[i].0@,
    {
        let id = self.results@[i].0@;
        assert(0 <= i < self.results@.len() && self.results@[i].0@ == id);
        let k = result_slot(self.results@, id);
        if k != i {
            if k < i {
                assert(self.results@[k].0@ != self.results@[i].0@);
            } else {
                assert(self.results@[i].0@ != self.results@[k].0@);
            }
        }
    }

    proof fn lemma_absent(self, id: Seq<char>)
        requires
            forall|j: int| 0 <= j < self.results@.len() ==> self.results@[j].0@ != id,
        ensures
            self.result(id) is None,
            !self.ids().contains(id),
    {
        if self.ids().contains(id) {
            let j = choose|j: int| 0 <= j < self.ids().len() && self.ids()[j] == id;
            assert(self.results@[j].0@ == id);
        }
    }

    fn find(&self, id: &str) -> (r: Option<usize>)
        requires
            self.wf(),
        ensures
            match r {
                Some(i) => i < self.results@.len() && self.results@[i as int].0@ == id@ && self.result(id@) == Some(
                    self.results@[i as int].1,
                ),
                None => self.result(id@) is None && !self.ids().contains(id@) && forall|j: int|
                    0 <= j < self.results@.len() ==> self.results@[j].0@ != id@,
            },
    {
        let key = id.to_owned();
        let mut i: usize = 0;
        while i < self.results.len()
            invariant
                self.wf(),
                key@ == id@,
                0 <= i <= self.results@.len(),
                forall|j: int| 0 <= j < i ==> self.results@[j].0@ != id@,
            decreases self.results@.len() - i,
        {
            if self.results[i].0 == key {
                proof {
                    self.lemma_at(i as int);
                }
                return Some(i);
            }
            i = i + 1;
        }
        proof {
            self.lemma_absent(id@);
        }
        None
    }

    pub fn new() -> (r: Self)
        ensures
            r.wf(),
            r.ids() == Seq::<Seq<char>>::empty(),
            forall|id: Seq<char>| #[trigger] r.result(id) is None,
    {
        let r = Self { results: Vec::new() };
        proof {
            assert(r.ids() =~= Seq::<Seq<char>>::empty());
            assert forall|id: Seq<char>| #[trigger] r.result(id) is None by {
                r.lemma_absent(id);
            }
        }
        r
    }

    /// Stores `result` under `id`, replacing what was stored there.
    pub fn save(&mut self, id: String, result: R)
        requires
            old(self).wf(),
        ensures
            final(self).wf(),
            final(self).result(id@) == Some(result),
            forall|k: Seq<char>| k != id@ ==> #[trigger] final(self).result(k) == old(self).result(k),
            final(self).ids() == (if old(self).ids().contains(id@) {
                old(self).ids()
            } else {
                old(self).ids().push(id@)
            }),
    {
        let ghost old_self = *self;
        let ghost key = id@;
        match self.find(id.as_str()) {
            Some(i) => {
                let _ = self.results.remove(i);
                self.results.insert(i, (id, result));
                proof {
                    assert forall|a: int, b: int| 0 <= a < b < self.results@.len() implies self.results@[a].0@
                        != self.results@[b].0@ by {
                        assert(old_self.results@[a].0@ != old_self.results@[b].0@);
                        if a != i {
                            assert(self.results@[a] == old_self.results@[a]);
                        }
                        if b != i {
                            assert(self.results@[b] == old_self.results@[b]);
                        }
                    }
                    self.lemma_at(i as int);
                    old_self.lemma_at(i as int);
                    assert(self.ids() =~= old_self.ids()) by {
                        assert forall|j: int| 0 <= j < self.results@.len() implies self.ids()[j] == old_self.ids()[j] by {
                            if j != i {
                                assert(self.results@[j] == old_self.results@[j]);
                            }
                        }
                    }
                    assert forall|k: Seq<char>| k != key implies #[trigger] self.result(k) == old_self.result(k) by {
                        let ok = result_slot(old_self.results@, k);
                        if ok >= 0 {
                            assert(old_self.results@[ok].0@ == k);
                            assert(ok != i);
                            assert(self.results@[ok] == old_self.results@[ok]);
                            self.lemma_at(ok);
                            old_self.lemma_at(ok);
                        } else {
                            assert forall|j: int| 0 <= j < self.results@.len() implies self.results@[j].0@ != k by {
                                if j != i {
                                    assert(self.results@[j] == old_self.results@[j]);
                                    if old_self.results@[j].0@ == k {
                                        assert(0 <= j < old_self.results@.len() && old_self.results@[j].0@ == k);
                                    }
                                }
                            }
                            self.lemma_absent(k);
                        }
                    }
                }
            },
            None => {
                self.results.push((id, result));
                proof {
                    let n = old_self.results@.len() as int;
                    assert forall|a: int, b: int| 0 <= a < b < self.results@.len() implies self.results@[a].0@
                        != self.results@[b].0@ by {
                        assert(self.results@[a] == old_self.results@[a]);
                        if b < n {
                            assert(self.results@[b] == old_self.results@[b]);
                        }
                    }
                    self.lemma_at(n);
                    assert(self.ids() =~= old_self.ids().push(key)) by {
                        assert forall|j: int| 0 <= j < n implies self.ids()[j] == old_self.ids()[j] by {
                            assert(self.results@[j] == old_self.results@[j]);
                        }
                    }
                    assert forall|k: Seq<char>| k != key implies #[trigger] self.result(k) == old_self.result(k) by {
                        let ok = result_slot(old_self.results@, k);
                        if ok >= 0 {
                            assert(old_self.results@[ok].0@ == k);
                            assert(self.results@[ok] == old_self.results@[ok]);
                            self.lemma_at(ok);
                            old_self.lemma_at(ok);
                        } else {
                            assert forall|j: int| 0 <= j < self.results@.len() implies self.results@[j].0@ != k by {
                                if j < n {
                                    assert(self.results@[j] == old_self.results@[j]);
                                    if old_self.results@[j].0@ == k {
                                        assert(0 <= j < old_self.results@.len() && old_self.results@[j].0@ == k);
                                    }
                                }
                            }
                            self.lemma_absent(k);
                        }
                    }
                }
            },
        }
    }

    /// The result stored under `id`.
    pub fn get(&self, id: &str) -> (r: Option<&R>)
        requires
            self.wf(),
        ensures
            match r {
                Some(x) => self.result(id@) == Some(*x),
                None => self.result(id@) is None,
            },
    {
        match self.find(id) {
            Some(i) => Some(&self.results[i].1),
            None => None,
        }
    }

    /// All stored ids, in code-point order.
    pub fn list_ids(&self) -> (r: Vec<String>)
        ensures
            string_views(r@) == self.ids().sort_by(|a: Seq<char>, b: Seq<char>| text_le(a, b)),
    {
        let mut ids: Vec<String> = Vec::new();
        let mut i: usize = 0;
        while i < self.results.len()
            invariant
                0 <= i <= self.results@.len(),
                ids@.len() == i,
                forall|j: int| 0 <= j < i ==> #[trigger] ids@[j]@ == self.results@[j].0@,
            decreases self.results@.len() - i,
        {
            ids.push(self.results[i].0.clone());
            i = i + 1;
        }
        assert(string_views(ids@) =~= self.ids());
        sort_strings(&ids)
    }

    /// Removes the result stored under `id`; whether there was one.
    pub fn delete(&mut self, id: &str) -> (r: bool)
        requires
            old(self).wf(),
        ensures
            final(self).wf(),
            r == old(self).result(id@) is Some,
            final(self).result(id@) is None,
            forall|k: Seq<char>| k != id@ ==> #[trigger] final(self).result(k) == old(self).result(k),
    {
        let ghost old_self = *self;
        match self.find(id) {
            Some(i) => {
                let _ = self.results.remove(i);
                proof {
                    let s = old_self.results@;
                    assert(self.results@ =~= s.remove(i as int));
                    assert forall|a: int, b: int| 0 <= a < b < self.results@.len() implies self.results@[a].0@
                        != self.results@[b].0@ by {
                        let a2 = if a < i { a } else { a + 1 };
                        let b2 = if b < i { b } else { b + 1 };
                        assert(self.results@[a] == s[a2] && self.results@[b] == s[b2]);
                    }
                    assert forall|j: int| 0 <= j < self.results@.len() implies self.results@[j].0@ != id@ by {
                        let j2 = if j < i { j } else { j + 1 };
                        assert(self.results@[j] == s[j2]);
                    }
                    self.lemma_absent(id@);
                    assert forall|k: Seq<char>| k != id@ implies #[trigger] self.result(k) == old_self.result(k) by {
                        let ok = result_slot(s, k);
                        if ok >= 0 {
                            assert(s[ok].0@ == k);
                            assert(ok != i);
                            let ok2 = if ok < i { ok } else { ok - 1 };
                            assert(self.results@[ok2] == s[ok]);
                            self.lemma_at(ok2);
                            old_self.lemma_at(ok);
                        } else {
                            assert forall|j: int| 0 <= j < self.results@.len() implies self.results@[j].0@ != k by {
                                let j2 = if j < i { j } else { j + 1 };
                                assert(self.results@[j] == s[j2]);
                                if s[j2].0@ == k {
                                    assert(0 <= j2 < s.len() && s[j2].0@ == k);
                                }
                            }
                            self.lemma_absent(k);
                        }
                    }
                }
                true
            },
            None => false,
        }
    }
}

impl<R> Default for ResultStore<R> {
    fn default() -> (r: Self)
        ensures
            r.wf(),
            r.ids() == Seq::<Seq<char>>::empty(),
            forall|id: Seq<char>| #[trigger] r.result(id) is None,
    {
        Self::new()
    }
}

} // verus!
