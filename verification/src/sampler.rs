//! A randomised bounded-multiplicity sampler over a collection of
//! targets: each element of the input is yielded exactly `limit` times,
//! in a uniformly random interleaving.

use vstd::prelude::*;
use crate::rng::random_below;

verus! {

/// How many positions of `d` hold `y`.
pub open spec fn occurrences<T>(d: Seq<T>, y: T) -> int
    decreases d.len(),
{
    if d.len() == 0 {
        0
    } else {
        occurrences(d.drop_last(), y) + if d.last() == y {
            1int
        } else {
            0int
        }
    }
}

/// Sum over the positions of `d` that hold `y` of the matching entry of
/// `l`: how often `y` is still to be yielded.
pub open spec fn weight<T>(d: Seq<T>, l: Seq<u64>, y: T) -> int
    decreases d.len(),
{
    if d.len() == 0 || d.len() != l.len() {
        0
    } else {
        weight(d.drop_last(), l.drop_last(), y) + if d.last() == y {
            l.last() as int
        } else {
            0int
        }
    }
}

/// Sum of all entries of `l`: how many yields are left in total.
pub open spec fn budget(l: Seq<u64>) -> int
    decreases l.len(),
{
    if l.len() == 0 {
        0
    } else {
        budget(l.drop_last()) + l.last()
    }
}

proof fn lemma_weight_update<T>(d: Seq<T>, l: Seq<u64>, ix: int, nd: T, nl: u64, y: T)
    requires
        d.len() == l.len(),
        0 <= ix < d.len(),
    ensures
        weight(d.update(ix, nd), l.update(ix, nl), y) == weight(d, l, y) - (if d[ix] == y {
            l[ix] as int
        } else {
            0int
        }) + (if nd == y {
            nl as int
        } else {
            0int
        }),
    decreases d.len(),
{
    let d2 = d.update(ix, nd);
    let l2 = l.update(ix, nl);
    if ix == d.len() - 1 {
        assert(d2.drop_last() =~= d.drop_last());
        assert(l2.drop_last() =~= l.drop_last());
    } else {
        assert(d2.drop_last() =~= d.drop_last().update(ix, nd));
        assert(l2.drop_last() =~= l.drop_last().update(ix, nl));
        lemma_weight_update(d.drop_last(), l.drop_last(), ix, nd, nl, y);
        assert(d2.last() == d.last());
        assert(l2.last() == l.last());
    }
}

proof fn lemma_budget_update(l: Seq<u64>, ix: int, nl: u64)
    requires
        0 <= ix < l.len(),
    ensures
        budget(l.update(ix, nl)) == budget(l) - l[ix] + nl,
    decreases l.len(),
{
    let l2 = l.update(ix, nl);
    if ix == l.len() - 1 {
        assert(l2.drop_last() =~= l.drop_last());
    } else {
        assert(l2.drop_last() =~= l.drop_last().update(ix, nl));
        lemma_budget_update(l.drop_last(), ix, nl);
    }
}

proof fn lemma_weight_const<T>(d: Seq<T>, l: Seq<u64>, k: u64, y: T)
    requires
        d.len() == l.len(),
        forall|i: int| 0 <= i < l.len() ==> l[i] == k,
    ensures
        weight(d, l, y) == k * occurrences(d, y),
    decreases d.len(),
{
    if d.len() == 0 {
    } else {
        lemma_weight_const(d.drop_last(), l.drop_last(), k, y);
        let a = occurrences(d.drop_last(), y);
        let b: int = if d.last() == y {
            1
        } else {
            0
        };
        assert(occurrences(d, y) == a + b);
        assert(k * (a + b) == k * a + k * b) by (nonlinear_arith);
    }
}

proof fn lemma_budget_const(l: Seq<u64>, k: u64)
    requires
        forall|i: int| 0 <= i < l.len() ==> l[i] == k,
    ensures
        budget(l) == k * l.len(),
    decreases l.len(),
{
    if l.len() == 0 {
    } else {
        lemma_budget_const(l.drop_last(), k);
        assert(k * l.len() == k * (l.len() - 1) + k) by (nonlinear_arith);
    }
}

proof fn lemma_weight_nonneg<T>(d: Seq<T>, l: Seq<u64>, y: T)
    ensures
        weight(d, l, y) >= 0,
    decreases d.len(),
{
    if d.len() == 0 || d.len() != l.len() {
    } else {
        lemma_weight_nonneg(d.drop_last(), l.drop_last(), y);
    }
}

proof fn lemma_weight_member<T>(d: Seq<T>, l: Seq<u64>, ix: int)
    requires
        d.len() == l.len(),
        0 <= ix < d.len(),
    ensures
        weight(d, l, d[ix]) >= l[ix],
    decreases d.len(),
{
    if ix == d.len() - 1 {
        lemma_weight_nonneg(d.drop_last(), l.drop_last(), d[ix]);
    } else {
        lemma_weight_member(d.drop_last(), l.drop_last(), ix);
    }
}

proof fn lemma_budget_pos(l: Seq<u64>)
    requires
        l.len() > 0,
        forall|i: int| 0 <= i < l.len() ==> l[i] >= 1,
    ensures
        budget(l) >= l.len(),
    decreases l.len(),
{
    if l.len() == 1 {
        assert(l.drop_last().len() == 0);
        assert(budget(l.drop_last()) == 0);
    } else {
        lemma_budget_pos(l.drop_last());
    }
}

/// A finite source of targets built from `(data, limit)`: as long as it
/// is not exhausted, `next` yields a uniformly random element among
/// those still owed, and over its whole life it yields each element of
/// `data` exactly `limit` times (per occurrence in `data`).
pub struct SamplerLimited<T> {
    data: Vec<T>,
    limit: Vec<u64>,
}

impl<T: Copy> SamplerLimited<T> {
    /// Both columns walk together and nothing owed is ever zero.
    pub closed spec fn wf(self) -> bool {
        &&& self.data@.len() == self.limit@.len()
        &&& forall|i: int| 0 <= i < self.limit@.len() ==> self.limit@[i] >= 1
    }

    /// How often `y` is still to be yielded.
    pub closed spec fn count(self, y: T) -> int {
        weight(self.data@, self.limit@, y)
    }

    /// How many yields are left in total.
    pub closed spec fn remaining(self) -> int {
        budget(self.limit@)
    }

    /// Build a sampler owing each element of `data` exactly `limit`
    /// yields. With `limit == 0` the sampler is empty.
    pub fn new(data: Vec<T>, limit: u64) -> (r: Self)
        ensures
            r.wf(),
            limit == 0 ==> r.remaining() == 0 && forall|y: T| r.count(y) == 0,
            limit > 0 ==> r.remaining() == limit * data@.len() && forall|y: T|
                r.count(y) == limit * occurrences(data@, y),
    {
        if limit == 0 {
            let r = Self { data: Vec::new(), limit: Vec::new() };
            proof {
                assert forall|y: T| r.count(y) == 0 by {}
            }
            r
        } else {
            let len = data.len();
            let mut counts: Vec<u64> = Vec::new();
            let mut i: usize = 0;
            while i < len
                invariant
                    i <= len,
                    counts.len() == i,
                    forall|j: int| 0 <= j < i ==> counts@[j] == limit,
                decreases len - i,
            {
                counts.push(limit);
                i = i + 1;
            }
            let r = Self { data, limit: counts };
            proof {
                lemma_budget_const(r.limit@, limit);
                assert forall|y: T| r.count(y) == limit * occurrences(r.data@, y) by {
                    lemma_weight_const(r.data@, r.limit@, limit, y);
                }
            }
            r
        }
    }

    /// Yield one element still owed, chosen uniformly at random, or
    /// `None` when the sampler is exhausted.
    pub fn next(&mut self) -> (r: Option<T>)
        requires
            old(self).wf(),
        ensures
            final(self).wf(),
            match r {
                None => {
                    &&& old(self).remaining() == 0
                    &&& final(self).remaining() == 0
                    &&& forall|y: T| final(self).count(y) == old(self).count(y)
                    &&& forall|y: T| final(self).count(y) == 0
                },
                Some(x) => {
                    &&& old(self).remaining() > 0
                    &&& old(self).count(x) > 0
                    &&& final(self).count(x) == old(self).count(x) - 1
                    &&& forall|y: T| y != x ==> final(self).count(y) == old(self).count(y)
                    &&& final(self).remaining() == old(self).remaining() - 1
                },
            },
    {
        let len = self.limit.len();
        if len == 0 {
            proof {
                assert(old(self).remaining() == 0);
                assert forall|y: T| final(self).count(y) == old(self).count(y) by {}
                assert forall|y: T| final(self).count(y) == 0 by {
                    assert(weight(self.data@, self.limit@, y) == 0);
                }
            }
            None
        } else {
            proof {
                lemma_budget_pos(self.limit@);
            }
            let ix = random_below(len);
            let c = self.limit[ix];
            let chosen = self.data[ix];
            proof {
                lemma_weight_member(self.data@, self.limit@, ix as int);
            }
            if c == 1 {
                let ghost d0 = self.data@;
                let ghost l0 = self.limit@;
                if ix + 1 != len {
                    let last_d = self.data[len - 1];
                    let last_l = self.limit[len - 1];
                    self.data[ix] = last_d;
                    self.limit[ix] = last_l;
                    proof {
                        assert forall|y: T|
                            weight(self.data@, self.limit@, y) == weight(d0, l0, y) - (if d0[ix as int]
                                == y {
                                1int
                            } else {
                                0int
                            }) + (if d0[d0.len() - 1] == y {
                                l0[l0.len() - 1] as int
                            } else {
                                0int
                            }) by {
                            lemma_weight_update(d0, l0, ix as int, d0[d0.len() - 1], l0[l0.len() - 1], y);
                        }
                        lemma_budget_update(l0, ix as int, l0[l0.len() - 1]);
                    }
                }
                let ghost d1 = self.data@;
                let ghost l1 = self.limit@;
                self.limit.pop();
                self.data.pop();
                proof {
                    assert(self.data@ =~= d1.drop_last());
                    assert(self.limit@ =~= l1.drop_last());
                    assert(d1.len() == l1.len() && d1.len() > 0);
                    assert forall|y: T|
                        weight(d1.drop_last(), l1.drop_last(), y) == weight(d1, l1, y) - (if d1.last()
                            == y {
                            l1.last() as int
                        } else {
                            0int
                        }) by {}
                    if ix + 1 != len {
                        assert(d1.last() == d0[d0.len() - 1] && l1.last() == l0[l0.len() - 1]);
                    } else {
                        assert(d1 =~= d0 && l1 =~= l0);
                        assert(d1.last() == d0[ix as int] && l1.last() == 1);
                    }
                }
                Some(chosen)
            } else {
                let ghost d0 = self.data@;
                let ghost l0 = self.limit@;
                self.limit[ix] = c - 1;
                proof {
                    assert forall|y: T|
                        weight(self.data@, self.limit@, y) == weight(d0, l0, y) - (if d0[ix as int]
                            == y {
                            1int
                        } else {
                            0int
                        }) by {
                        lemma_weight_update(d0, l0, ix as int, d0[ix as int], (c - 1) as u64, y);
                        assert(d0.update(ix as int, d0[ix as int]) =~= d0);
                        assert(self.data@ =~= d0);
                        assert(self.limit@ =~= l0.update(ix as int, (c - 1) as u64));
                    }
                    lemma_budget_update(l0, ix as int, (c - 1) as u64);
                }
                Some(chosen)
            }
        }
    }

    /// How many elements are still listed; exposed for callers that only
    /// need to know whether the sampler is exhausted.
    pub fn is_exhausted(&self) -> (r: bool)
        requires
            self.wf(),
        ensures
            r <==> self.remaining() == 0,
    {
        proof {
            if self.limit@.len() > 0 {
                lemma_budget_pos(self.limit@);
            }
        }
        self.limit.len() == 0
    }
}

/// The sampler built from `(data, limit)` with pairwise-distinct `data`
/// owes exactly `limit` yields of each listed element, `limit * |data|`
/// yields in all, and owes nothing of an element not listed.
pub proof fn lemma_sampler_counts<T: Copy>(s: SamplerLimited<T>, data: Seq<T>, limit: u64)
    requires
        limit > 0,
        s.remaining() == limit * data.len(),
        forall|y: T| s.count(y) == limit * occurrences(data, y),
        forall|i: int, j: int| 0 <= i < j < data.len() ==> data[i] != data[j],
    ensures
        forall|i: int| 0 <= i < data.len() ==> s.count(data[i]) == limit,
        forall|y: T| !data.contains(y) ==> s.count(y) == 0,
{
    assert forall|i: int| 0 <= i < data.len() implies s.count(data[i]) == limit by {
        lemma_occurrences_distinct(data, i);
        assert(s.count(data[i]) == limit * 1int) by (nonlinear_arith)
            requires
                s.count(data[i]) == limit * occurrences(data, data[i]),
                occurrences(data, data[i]) == 1,
        ;
    }
    assert forall|y: T| !data.contains(y) implies s.count(y) == 0 by {
        lemma_occurrences_absent(data, y);
    }
}

proof fn lemma_occurrences_distinct<T>(d: Seq<T>, ix: int)
    requires
        0 <= ix < d.len(),
        forall|i: int, j: int| 0 <= i < j < d.len() ==> d[i] != d[j],
    ensures
        occurrences(d, d[ix]) == 1,
    decreases d.len(),
{
    if ix == d.len() - 1 {
        lemma_occurrences_absent(d.drop_last(), d[ix]);
    } else {
        lemma_occurrences_distinct(d.drop_last(), ix);
    }
}

proof fn lemma_occurrences_absent<T>(d: Seq<T>, y: T)
    requires
        !d.contains(y),
    ensures
        occurrences(d, y) == 0,
    decreases d.len(),
{
    if d.len() == 0 {
    } else {
        assert(!d.drop_last().contains(y)) by {
            assert forall|i: int| 0 <= i < d.drop_last().len() implies d.drop_last()[i] != y by {
                assert(d[i] == d.drop_last()[i]);
            }
        }
        lemma_occurrences_absent(d.drop_last(), y);
    }
}

} // verus!
