//! A verified string-keyed map, held as an association list with pairwise
//! distinct keys: the store behind the connection registry, the pub/sub
//! indices and the handler registry.
use vstd::prelude::*;
use vstd::string::*;
use crate::strutil::str_eq;

verus! {

/// The abstract map an association list holds: later pairs shadow earlier
/// ones, though a well-formed list never repeats a key.
pub open spec fn pairs_map<T>(p: Seq<(String, T)>) -> Map<Seq<char>, T>
    decreases p.len(),
{
    if p.len() == 0 {
        Map::empty()
    } else {
        pairs_map(p.drop_last()).insert(p.last().0@, p.last().1)
    }
}

/// No two pairs share a key.
pub open spec fn pairs_distinct<T>(p: Seq<(String, T)>) -> bool {
    forall|i: int, j: int|
        0 <= i < j < p.len() ==> (#[trigger] p[i]).0@ != (#[trigger] p[j]).0@
}

pub proof fn lemma_pairs_map_contains<T>(p: Seq<(String, T)>)
    ensures
        forall|k: Seq<char>|
            #[trigger] pairs_map(p).contains_key(k) <==> exists|i: int|
                0 <= i < p.len() && (#[trigger] p[i]).0@ == k,
    decreases p.len(),
{
    if p.len() > 0 {
        lemma_pairs_map_contains(p.drop_last());
        assert forall|k: Seq<char>| #[trigger] pairs_map(p).contains_key(k) implies exists|i: int|
            0 <= i < p.len() && (#[trigger] p[i]).0@ == k by {
            if k == p.last().0@ {
                assert((p[p.len() - 1]).0@ == k);
            } else {
                assert(pairs_map(p.drop_last()).contains_key(k));
                let i = choose|i: int|
                    0 <= i < p.drop_last().len() && (#[trigger] p.drop_last()[i]).0@ == k;
                assert((p[i]).0@ == k);
            }
        }
        assert forall|k: Seq<char>|
            (exists|i: int| 0 <= i < p.len() && (#[trigger] p[i]).0@ == k) implies #[trigger]
        pairs_map(p).contains_key(k) by {
            let i = choose|i: int| 0 <= i < p.len() && (#[trigger] p[i]).0@ == k;
            if i < p.len() - 1 {
                assert((p.drop_last()[i]).0@ == k);
                assert(pairs_map(p.drop_last()).contains_key(k));
            }
        }
    }
}

pub proof fn lemma_pairs_map_index<T>(p: Seq<(String, T)>, i: int)
    requires
        pairs_distinct(p),
        0 <= i < p.len(),
    ensures
        pairs_map(p).contains_key(p[i].0@),
        pairs_map(p)[p[i].0@] == p[i].1,
    decreases p.len(),
{
    lemma_pairs_map_contains(p);
    if i < p.len() - 1 {
        assert(pairs_distinct(p.drop_last()));
        lemma_pairs_map_index(p.drop_last(), i);
        assert(p[i].0@ != p.last().0@);
    }
}

pub proof fn lemma_pairs_map_len<T>(p: Seq<(String, T)>)
    requires
        pairs_distinct(p),
    ensures
        pairs_map(p).dom().finite(),
        pairs_map(p).dom().len() == p.len(),
    decreases p.len(),
{
    if p.len() > 0 {
        assert(pairs_distinct(p.drop_last()));
        lemma_pairs_map_len(p.drop_last());
        lemma_pairs_map_contains(p.drop_last());
        assert(!pairs_map(p.drop_last()).contains_key(p.last().0@)) by {
            if pairs_map(p.drop_last()).contains_key(p.last().0@) {
                let i = choose|i: int|
                    0 <= i < p.drop_last().len() && (#[trigger] p.drop_last()[i]).0@ == p.last().0@;
                assert(p[i].0@ == p[p.len() - 1].0@);
            }
        }
    }
}

pub proof fn lemma_pairs_map_remove<T>(p: Seq<(String, T)>, i: int)
    requires
        pairs_distinct(p),
        0 <= i < p.len(),
    ensures
        pairs_map(p.remove(i)) == pairs_map(p).remove(p[i].0@),
    decreases p.len(),
{
    lemma_pairs_map_contains(p.drop_last());
    if i == p.len() - 1 {
        assert(p.remove(i) =~= p.drop_last());
        assert(!pairs_map(p.drop_last()).contains_key(p[i].0@)) by {
            if pairs_map(p.drop_last()).contains_key(p[i].0@) {
                let j = choose|j: int|
                    0 <= j < p.drop_last().len() && (#[trigger] p.drop_last()[j]).0@ == p[i].0@;
                assert(p[j].0@ == p[i].0@);
            }
        }
        assert(pairs_map(p).remove(p[i].0@) =~= pairs_map(p.drop_last()));
    } else {
        assert(p.remove(i).drop_last() =~= p.drop_last().remove(i));
        assert(p.remove(i).last() == p.last());
        assert(pairs_distinct(p.drop_last()));
        lemma_pairs_map_remove(p.drop_last(), i);
        assert(p[i].0@ != p.last().0@);
        assert(pairs_map(p).remove(p[i].0@) =~= pairs_map(p.remove(i)));
    }
}

/// A map from string keys to values.
pub struct StrMap<T> {
    pairs: Vec<(String, T)>,
}

impl<T> View for StrMap<T> {
    type V = Map<Seq<char>, T>;

    closed spec fn view(&self) -> Map<Seq<char>, T> {
        pairs_map(self.pairs@)
    }
}

impl<T> StrMap<T> {
    /// The association list never repeats a key.
    pub closed spec fn wf(&self) -> bool {
        pairs_distinct(self.pairs@)
    }

    /// A well-formed map has a finite domain.
    pub proof fn lemma_finite(&self)
        requires
            self.wf(),
        ensures
            self@.dom().finite(),
    {
        lemma_pairs_map_len(self.pairs@);
    }

    pub fn new() -> (r: Self)
        ensures
            r.wf(),
            r@ == Map::<Seq<char>, T>::empty(),
    {
        let r = StrMap { pairs: Vec::new() };
        proof {
            assert(r@ =~= Map::<Seq<char>, T>::empty());
        }
        r
    }

    fn position(&self, k: &str) -> (r: Option<usize>)
        ensures
            match r {
                Some(i) => i < self.pairs@.len() && self.pairs@[i as int].0@ == k@,
                None => forall|i: int|
                    0 <= i < self.pairs@.len() ==> (#[trigger] self.pairs@[i]).0@ != k@,
            },
    {
        let mut i: usize = 0;
        while i < self.pairs.len()
            invariant
                i <= self.pairs@.len(),
                forall|j: int| 0 <= j < i ==> (#[trigger] self.pairs@[j]).0@ != k@,
            decreases self.pairs@.len() - i,
        {
            if str_eq(self.pairs[i].0.as_str(), k) {
                return Some(i);
            }
            i = i + 1;
        }
        None
    }

    pub fn contains_key(&self, k: &str) -> (r: bool)
        ensures
            r == self@.contains_key(k@),
    {
        proof {
            lemma_pairs_map_contains(self.pairs@);
        }
        self.position(k).is_some()
    }

    pub fn len(&self) -> (n: usize)
        requires
            self.wf(),
        ensures
            n == self@.dom().len(),
    {
        proof {
            lemma_pairs_map_len(self.pairs@);
        }
        self.pairs.len()
    }

    pub fn get(&self, k: &str) -> (r: Option<&T>)
        requires
            self.wf(),
        ensures
            match r {
                Some(v) => self@.contains_key(k@) && *v == self@[k@],
                None => !self@.contains_key(k@),
            },
    {
        proof {
            lemma_pairs_map_contains(self.pairs@);
        }
        match self.position(k) {
            Some(i) => {
                proof {
                    lemma_pairs_map_index(self.pairs@, i as int);
                }
                Some(&self.pairs[i].1)
            },
            None => None,
        }
    }

    /// Inserts or overwrites the binding of `k`.
    pub fn insert(&mut self, k: &str, v: T)
        requires
            old(self).wf(),
        ensures
            final(self).wf(),
            final(self)@ == old(self)@.insert(k@, v),
    {
        let ghost oldp = self.pairs@;
        match self.position(k) {
            Some(i) => {
                proof {
                    lemma_pairs_map_remove(oldp, i as int);
                }
                let _ = self.pairs.remove(i);
                self.pairs.push((k.to_owned(), v));
                proof {
                    let newp = self.pairs@;
                    assert(newp.drop_last() =~= oldp.remove(i as int));
                    assert(pairs_map(newp) == pairs_map(oldp.remove(i as int)).insert(k@, v));
                    assert(pairs_map(newp) =~= pairs_map(oldp).insert(k@, v));
                    assert forall|a: int, b: int|
                        0 <= a < b < newp.len() implies (#[trigger] newp[a]).0@ != (
                    #[trigger] newp[b]).0@ by {
                        if b == newp.len() - 1 {
                            let ra = oldp.remove(i as int)[a];
                            if a < i {
                                assert(ra == oldp[a]);
                                assert(oldp[a].0@ != oldp[i as int].0@);
                            } else {
                                assert(ra == oldp[a + 1]);
                                assert(oldp[a + 1].0@ != oldp[i as int].0@);
                            }
                        }
                    }
                }
            },
            None => {
                self.pairs.push((k.to_owned(), v));
                proof {
                    let newp = self.pairs@;
                    assert(newp.drop_last() =~= oldp);
                    assert(pairs_map(newp) == pairs_map(oldp).insert(k@, v));
                }
            },
        }
    }

    /// Removes the binding of `k`, returning the bound value when there was
    /// one.
    pub fn remove(&mut self, k: &str) -> (r: Option<T>)
        requires
            old(self).wf(),
        ensures
            final(self).wf(),
            final(self)@ == old(self)@.remove(k@),
            match r {
                Some(v) => old(self)@.contains_key(k@) && v == old(self)@[k@],
                None => !old(self)@.contains_key(k@),
            },
    {
        let ghost oldp = self.pairs@;
        proof {
            lemma_pairs_map_contains(oldp);
        }
        match self.position(k) {
            Some(i) => {
                proof {
                    lemma_pairs_map_remove(oldp, i as int);
                    lemma_pairs_map_index(oldp, i as int);
                    assert forall|a: int, b: int|
                        0 <= a < b < oldp.remove(i as int).len() implies (#[trigger] oldp.remove(
                        i as int,
                    )[a]).0@ != (#[trigger] oldp.remove(i as int)[b]).0@ by {
                        let ra = if a < i {
                            oldp[a]
                        } else {
                            oldp[a + 1]
                        };
                        let rb = if b < i {
                            oldp[b]
                        } else {
                            oldp[b + 1]
                        };
                        assert(oldp.remove(i as int)[a] == ra);
                        assert(oldp.remove(i as int)[b] == rb);
                    }
                }
                let pair = self.pairs.remove(i);
                Some(pair.1)
            },
            None => {
                proof {
                    assert(pairs_map(oldp).remove(k@) =~= pairs_map(oldp));
                }
                None
            },
        }
    }

    /// The keys, in insertion order, without repetition.
    pub fn keys(&self) -> (r: Vec<String>)
        requires
            self.wf(),
        ensures
            r@.len() == self@.dom().len(),
            forall|i: int| 0 <= i < r@.len() ==> self@.contains_key((#[trigger] r@[i])@),
            forall|k: Seq<char>| #[trigger]
                self@.contains_key(k) ==> exists|i: int| 0 <= i < r@.len() && (#[trigger] r@[i])@
                    == k,
            forall|i: int, j: int| 0 <= i < j < r@.len() ==> (#[trigger] r@[i])@ != (
            #[trigger] r@[j])@,
    {
        proof {
            lemma_pairs_map_contains(self.pairs@);
            lemma_pairs_map_len(self.pairs@);
        }
        let mut out: Vec<String> = Vec::new();
        let mut i: usize = 0;
        while i < self.pairs.len()
            invariant
                i <= self.pairs@.len(),
                out@.len() == i,
                forall|j: int| 0 <= j < i ==> (#[trigger] out@[j])@ == self.pairs@[j].0@,
            decreases self.pairs@.len() - i,
        {
            let piece = self.pairs[i].0.clone();
            out.push(piece);
            i = i + 1;
        }
        proof {
            assert forall|k: Seq<char>| #[trigger] self@.contains_key(k) implies exists|i: int|
                0 <= i < out@.len() && (#[trigger] out@[i])@ == k by {
                let i = choose|i: int|
                    0 <= i < self.pairs@.len() && (#[trigger] self.pairs@[i]).0@ == k;
                assert(out@[i]@ == k);
            }
        }
        out
    }
}

/// The total length of the value vectors: the number of subscriptions a
/// component-to-channels index holds.
pub open spec fn sum_value_lens(p: Seq<(String, Vec<String>)>) -> int
    decreases p.len(),
{
    if p.len() == 0 {
        0
    } else {
        sum_value_lens(p.drop_last()) + p.last().1@.len()
    }
}

proof fn lemma_sum_value_lens_remove(p: Seq<(String, Vec<String>)>, i: int)
    requires
        0 <= i < p.len(),
    ensures
        sum_value_lens(p.remove(i)) == sum_value_lens(p) - p[i].1@.len(),
    decreases p.len(),
{
    if i == p.len() - 1 {
        assert(p.remove(i) =~= p.drop_last());
    } else {
        assert(p.remove(i).drop_last() =~= p.drop_last().remove(i));
        assert(p.remove(i).last() == p.last());
        lemma_sum_value_lens_remove(p.drop_last(), i);
    }
}

impl StrMap<Vec<String>> {
    /// The total length of all value vectors.
    pub closed spec fn total_values_len(&self) -> int {
        sum_value_lens(self.pairs@)
    }

    /// An empty map holds no list entries at all.
    pub proof fn lemma_total_empty(&self)
        requires
            self.wf(),
            self@ == Map::<Seq<char>, Vec<String>>::empty(),
        ensures
            self.total_values_len() == 0,
    {
        lemma_pairs_map_len(self.pairs@);
        assert(self@.dom() =~= Set::<Seq<char>>::empty());
        assert(self.pairs@.len() == 0);
        assert(self.pairs@ =~= Seq::<(String, Vec<String>)>::empty());
    }

    /// Inserts or overwrites the binding of `k`, accounting for the change
    /// to the total of the value lengths.
    pub fn insert_list(&mut self, k: &str, v: Vec<String>)
        requires
            old(self).wf(),
        ensures
            final(self).wf(),
            final(self)@ == old(self)@.insert(k@, v),
            final(self).total_values_len() == old(self).total_values_len() + v@.len() - (
            if old(self)@.contains_key(k@) {
                old(self)@[k@]@.len() as int
            } else {
                0int
            }),
    {
        let ghost oldp = self.pairs@;
        proof {
            lemma_pairs_map_contains(oldp);
        }
        match self.position(k) {
            Some(i) => {
                proof {
                    lemma_pairs_map_remove(oldp, i as int);
                    lemma_pairs_map_index(oldp, i as int);
                    lemma_sum_value_lens_remove(oldp, i as int);
                }
                let _ = self.pairs.remove(i);
                self.pairs.push((k.to_owned(), v));
                proof {
                    let newp = self.pairs@;
                    assert(newp.drop_last() =~= oldp.remove(i as int));
                    assert(pairs_map(newp) == pairs_map(oldp.remove(i as int)).insert(k@, v));
                    assert(pairs_map(newp) =~= pairs_map(oldp).insert(k@, v));
                    assert forall|a: int, b: int|
                        0 <= a < b < newp.len() implies (#[trigger] newp[a]).0@ != (
                    #[trigger] newp[b]).0@ by {
                        if b == newp.len() - 1 {
                            let ra = oldp.remove(i as int)[a];
                            if a < i {
                                assert(ra == oldp[a]);
                                assert(oldp[a].0@ != oldp[i as int].0@);
                            } else {
                                assert(ra == oldp[a + 1]);
                                assert(oldp[a + 1].0@ != oldp[i as int].0@);
                            }
                        }
                    }
                }
            },
            None => {
                self.pairs.push((k.to_owned(), v));
                proof {
                    let newp = self.pairs@;
                    assert(newp.drop_last() =~= oldp);
                    assert(pairs_map(newp) == pairs_map(oldp).insert(k@, v));
                }
            },
        }
    }

    /// Removes the binding of `k`, accounting for the change to the total
    /// of the value lengths.
    pub fn remove_list(&mut self, k: &str) -> (r: Option<Vec<String>>)
        requires
            old(self).wf(),
        ensures
            final(self).wf(),
            final(self)@ == old(self)@.remove(k@),
            match r {
                Some(v) => old(self)@.contains_key(k@) && v == old(self)@[k@],
                None => !old(self)@.contains_key(k@),
            },
            final(self).total_values_len() == old(self).total_values_len() - (
            if old(self)@.contains_key(k@) {
                old(self)@[k@]@.len() as int
            } else {
                0int
            }),
    {
        let ghost oldp = self.pairs@;
        proof {
            lemma_pairs_map_contains(oldp);
        }
        match self.position(k) {
            Some(i) => {
                proof {
                    lemma_pairs_map_remove(oldp, i as int);
                    lemma_pairs_map_index(oldp, i as int);
                    lemma_sum_value_lens_remove(oldp, i as int);
                    assert forall|a: int, b: int|
                        0 <= a < b < oldp.remove(i as int).len() implies (#[trigger] oldp.remove(
                        i as int,
                    )[a]).0@ != (#[trigger] oldp.remove(i as int)[b]).0@ by {
                        let ra = if a < i {
                            oldp[a]
                        } else {
                            oldp[a + 1]
                        };
                        let rb = if b < i {
                            oldp[b]
                        } else {
                            oldp[b + 1]
                        };
                        assert(oldp.remove(i as int)[a] == ra);
                        assert(oldp.remove(i as int)[b] == rb);
                    }
                }
                let pair = self.pairs.remove(i);
                Some(pair.1)
            },
            None => {
                proof {
                    assert(pairs_map(oldp).remove(k@) =~= pairs_map(oldp));
                }
                None
            },
        }
    }

    /// The total length of all value vectors, saturating at the machine
    /// limit.
    pub fn total_len(&self) -> (n: usize)
        ensures
            n == if self.total_values_len() <= usize::MAX as int {
                self.total_values_len()
            } else {
                usize::MAX as int
            },
    {
        proof {
            lemma_sum_value_lens_nonneg(self.pairs@);
        }
        let mut n: usize = 0;
        let mut i: usize = 0;
        proof {
            assert(self.pairs@.subrange(0, 0) =~= Seq::<(String, Vec<String>)>::empty());
        }
        while i < self.pairs.len()
            invariant
                i <= self.pairs@.len(),
                n as int == if sum_value_lens(self.pairs@.subrange(0, i as int)) <= usize::MAX
                    as int {
                    sum_value_lens(self.pairs@.subrange(0, i as int))
                } else {
                    usize::MAX as int
                },
            decreases self.pairs@.len() - i,
        {
            proof {
                assert(self.pairs@.subrange(0, i + 1).drop_last() =~= self.pairs@.subrange(
                    0,
                    i as int,
                ));
                lemma_sum_value_lens_nonneg(self.pairs@.subrange(0, i as int));
            }
            let add = self.pairs[i].1.len();
            if n <= usize::MAX - add {
                n = n + add;
            } else {
                n = usize::MAX;
            }
            i = i + 1;
        }
        proof {
            assert(self.pairs@.subrange(0, self.pairs@.len() as int) =~= self.pairs@);
        }
        n
    }
}

proof fn lemma_sum_value_lens_nonneg(p: Seq<(String, Vec<String>)>)
    ensures
        sum_value_lens(p) >= 0,
    decreases p.len(),
{
    if p.len() > 0 {
        lemma_sum_value_lens_nonneg(p.drop_last());
    }
}

} // verus!
