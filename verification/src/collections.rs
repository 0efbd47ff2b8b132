//! Multiplicity-counting edge stores: a bag of `(src, tgt)` edges with
//! occurrence counts, and a kind-partitioned family of such bags.

use vstd::prelude::*;
use crate::edge_kind::EdgeKind;

verus! {

/// Occurrence count of the key `(a, b)` in a sequence of counted edge
/// entries; entries later in the sequence shadow earlier ones.
pub open spec fn seq_count(s: Seq<(usize, usize, usize)>, a: usize, b: usize) -> nat
    decreases s.len(),
{
    if s.len() == 0 {
        0
    } else if s.last().0 == a && s.last().1 == b {
        s.last().2 as nat
    } else {
        seq_count(s.drop_last(), a, b)
    }
}

/// Entries with pairwise distinct `(src, tgt)` keys.
pub open spec fn distinct_keys(s: Seq<(usize, usize, usize)>) -> bool {
    forall|i: int, j: int|
        0 <= i < j < s.len() ==> !((#[trigger] s[i]).0 == (#[trigger] s[j]).0 && s[i].1 == s[j].1)
}

/// A key absent from every entry has count zero.
pub proof fn lemma_seq_count_absent(s: Seq<(usize, usize, usize)>, a: usize, b: usize)
    requires
        forall|i: int| 0 <= i < s.len() ==> !((#[trigger] s[i]).0 == a && s[i].1 == b),
    ensures
        seq_count(s, a, b) == 0,
    decreases s.len(),
{
    if s.len() > 0 {
        lemma_seq_count_absent(s.drop_last(), a, b);
    }
}

/// With distinct keys, the count of an entry's key is that entry's count.
pub proof fn lemma_seq_count_at(s: Seq<(usize, usize, usize)>, i: int)
    requires
        distinct_keys(s),
        0 <= i < s.len(),
    ensures
        seq_count(s, s[i].0, s[i].1) == s[i].2 as nat,
    decreases s.len(),
{
    if i == s.len() - 1 {
    } else {
        assert(s.drop_last()[i] == s[i]);
        lemma_seq_count_at(s.drop_last(), i);
    }
}

/// Updating the entry that holds a key changes that key's count alone.
pub proof fn lemma_seq_count_update(
    s: Seq<(usize, usize, usize)>,
    i: int,
    e: (usize, usize, usize),
    a: usize,
    b: usize,
)
    requires
        distinct_keys(s),
        0 <= i < s.len(),
        s[i].0 == e.0 && s[i].1 == e.1,
    ensures
        seq_count(s.update(i, e), a, b) == if a == e.0 && b == e.1 {
            e.2 as nat
        } else {
            seq_count(s, a, b)
        },
    decreases s.len(),
{
    let t = s.update(i, e);
    if i == s.len() - 1 {
        assert(t.last() == e);
        assert(t.drop_last() =~= s.drop_last());
        if a == e.0 && b == e.1 {
        } else {
        }
    } else {
        assert(t.last() == s.last());
        assert(t.drop_last() =~= s.drop_last().update(i, e));
        assert(distinct_keys(s.drop_last())) by {
            assert(forall|p: int, q: int|
                0 <= p < q < s.len() - 1 ==> s.drop_last()[p] == s[p] && s.drop_last()[q] == s[q]);
        }
        assert(s.drop_last()[i] == s[i]);
        lemma_seq_count_update(s.drop_last(), i, e, a, b);
        if s.last().0 == a && s.last().1 == b {
            assert(!(a == e.0 && b == e.1));
        }
    }
}

/// The `(tgt, count)` pairs of the entries whose source is `src`, in
/// entry order.
pub open spec fn spec_out_pairs(s: Seq<(usize, usize, usize)>, src: usize) -> Seq<(usize, usize)>
    decreases s.len(),
{
    if s.len() == 0 {
        Seq::empty()
    } else {
        spec_out_pairs(s.drop_last(), src) + (if s.last().0 == src {
            seq![(s.last().1, s.last().2)]
        } else {
            Seq::empty()
        })
    }
}

/// The `(src, count)` pairs of the entries whose target is `tgt`, in
/// entry order.
pub open spec fn spec_in_pairs(s: Seq<(usize, usize, usize)>, tgt: usize) -> Seq<(usize, usize)>
    decreases s.len(),
{
    if s.len() == 0 {
        Seq::empty()
    } else {
        spec_in_pairs(s.drop_last(), tgt) + (if s.last().1 == tgt {
            seq![(s.last().0, s.last().2)]
        } else {
            Seq::empty()
        })
    }
}

/// A bag of directed edges over dense node handles, counting how many
/// times each `(src, tgt)` pair was inserted.
pub struct EdgeBag {
    entries: Vec<(usize, usize, usize)>,
    total: Ghost<nat>,
}

impl EdgeBag {
    /// The entries as `(src, tgt, count)` triples, keys pairwise distinct.
    pub closed spec fn entries_view(&self) -> Seq<(usize, usize, usize)> {
        self.entries@
    }

    /// Number of insertions this bag has seen.
    pub closed spec fn total(&self) -> nat {
        self.total@
    }

    /// Occurrence count recorded for the pair `(a, b)`.
    pub open spec fn count(&self, a: usize, b: usize) -> nat {
        seq_count(self.entries_view(), a, b)
    }

    /// Well-formed: keys are distinct and every count is at least one and
    /// no larger than the number of insertions.
    pub closed spec fn wf(&self) -> bool {
        &&& distinct_keys(self.entries@)
        &&& forall|i: int|
            0 <= i < self.entries@.len() ==> 1 <= (#[trigger] self.entries@[i]).2 as nat
                <= self.total@
    }

    /// In a well-formed bag the recorded entries are exactly the pairs
    /// with a positive count, each carrying that count.
    pub proof fn lemma_entries_counts(&self)
        requires
            self.wf(),
        ensures
            forall|i: int|
                0 <= i < self.entries_view().len() ==> self.count(
                    (#[trigger] self.entries_view()[i]).0,
                    self.entries_view()[i].1,
                ) == self.entries_view()[i].2 as nat,
            forall|a: usize, b: usize|
                self.count(a, b) > 0 ==> exists|i: int|
                    0 <= i < self.entries_view().len() && (#[trigger] self.entries_view()[i]).0
                        == a && self.entries_view()[i].1 == b,
    {
        assert forall|i: int| 0 <= i < self.entries_view().len() implies self.count(
            (#[trigger] self.entries_view()[i]).0,
            self.entries_view()[i].1,
        ) == self.entries_view()[i].2 as nat by {
            lemma_seq_count_at(self.entries@, i);
        }
        assert forall|a: usize, b: usize| self.count(a, b) > 0 implies exists|i: int|
            0 <= i < self.entries_view().len() && (#[trigger] self.entries_view()[i]).0 == a
                && self.entries_view()[i].1 == b by {
            if forall|i: int|
                0 <= i < self.entries@.len() ==> !((#[trigger] self.entries@[i]).0 == a
                    && self.entries@[i].1 == b) {
                lemma_seq_count_absent(self.entries@, a, b);
            }
        }
    }

    /// A fresh, empty bag.
    pub fn new() -> (r: EdgeBag)
        ensures
            r.wf(),
            r.total() == 0,
            forall|a: usize, b: usize| r.count(a, b) == 0,
            r.entries_view() == Seq::<(usize, usize, usize)>::empty(),
    {
        EdgeBag { entries: Vec::new(), total: Ghost(0) }
    }

    /// Records one more occurrence of the edge `(src, tgt)` and returns
    /// the new count of that edge; counts of all other edges are kept.
    pub fn insert(&mut self, src: usize, tgt: usize) -> (c: usize)
        requires
            old(self).wf(),
            old(self).total() < usize::MAX,
        ensures
            final(self).wf(),
            final(self).total() == old(self).total() + 1,
            final(self).count(src, tgt) == old(self).count(src, tgt) + 1,
            forall|a: usize, b: usize|
                !(a == src && b == tgt) ==> final(self).count(a, b) == old(self).count(a, b),
            c as nat == final(self).count(src, tgt),
    {
        let n = self.entries.len();
        let mut i: usize = 0;
        while i < n
            invariant
                0 <= i <= n,
                n == self.entries@.len(),
                *self == *old(self),
                old(self).wf(),
                old(self).total() < usize::MAX,
                forall|k: int|
                    0 <= k < i ==> !((#[trigger] self.entries@[k]).0 == src && self.entries@[k].1
                        == tgt),
            decreases n - i,
        {
            let (a, b, c0) = self.entries[i];
            if a == src && b == tgt {
                let c1 = c0 + 1;
                proof {
                    lemma_seq_count_at(self.entries@, i as int);
                }
                self.entries[i] = (a, b, c1);
                proof {
                    assert forall|x: usize, y: usize| true implies seq_count(
                        old(self).entries@.update(i as int, (a, b, c1)),
                        x,
                        y,
                    ) == if x == src && y == tgt {
                        c1 as nat
                    } else {
                        seq_count(old(self).entries@, x, y)
                    } by {
                        lemma_seq_count_update(old(self).entries@, i as int, (a, b, c1), x, y);
                    }
                    self.total = Ghost(old(self).total@ + 1);
                }
                return c1;
            }
            i = i + 1;
        }
        proof {
            lemma_seq_count_absent(self.entries@, src, tgt);
        }
        self.entries.push((src, tgt, 1));
        proof {
            self.total = Ghost(old(self).total@ + 1);
            assert(self.entries@.drop_last() =~= old(self).entries@);
            assert forall|x: usize, y: usize| !(x == src && y == tgt) implies seq_count(
                self.entries@,
                x,
                y,
            ) == seq_count(old(self).entries@, x, y) by {
            }
        }
        1
    }

    /// The `(tgt, count)` pairs of every edge leaving `src`: sound,
    /// complete, and free of repeated targets.
    pub fn outgoing(&self, src: usize) -> (r: Vec<(usize, usize)>)
        requires
            self.wf(),
        ensures
            r@ == spec_out_pairs(self.entries_view(), src),
            forall|k: int|
                0 <= k < r@.len() ==> (#[trigger] r@[k]).1 as nat == self.count(src, r@[k].0)
                    && r@[k].1 >= 1,
            forall|t: usize| self.count(src, t) > 0 ==> exists|k: int|
                0 <= k < r@.len() && (#[trigger] r@[k]).0 == t,
            forall|k1: int, k2: int|
                0 <= k1 < k2 < r@.len() ==> (#[trigger] r@[k1]).0 != (#[trigger] r@[k2]).0,
    {
        proof {
            self.lemma_entries_counts();
        }
        let n = self.entries.len();
        let mut r: Vec<(usize, usize)> = Vec::new();
        let mut i: usize = 0;
        while i < n
            invariant
                0 <= i <= n,
                n == self.entries@.len(),
                self.wf(),
                r@ == spec_out_pairs(self.entries@.subrange(0, i as int), src),
                forall|k: int|
                    0 <= k < r@.len() ==> exists|j: int|
                        0 <= j < i && self.entries@[j] == (src, (#[trigger] r@[k]).0, r@[k].1),
                forall|j: int|
                    0 <= j < i && (#[trigger] self.entries@[j]).0 == src ==> exists|k: int|
                        0 <= k < r@.len() && r@[k] == (self.entries@[j].1, self.entries@[j].2),
                forall|k1: int, k2: int|
                    0 <= k1 < k2 < r@.len() ==> (#[trigger] r@[k1]).0 != (#[trigger] r@[k2]).0,
            decreases n - i,
        {
            let ghost r0 = r@;
            proof {
                assert(self.entries@.subrange(0, i as int + 1).drop_last() =~= self.entries@.subrange(
                    0,
                    i as int,
                ));
            }
            let (a, b, c) = self.entries[i];
            if a == src {
                proof {
                    assert forall|k1: int|
                        0 <= k1 < r@.len() implies (#[trigger] r@[k1]).0 != b by {
                        let j = choose|j: int|
                            0 <= j < i && self.entries@[j] == (src, r@[k1].0, r@[k1].1);
                        assert(self.entries@[j].0 == src && self.entries@[i as int].0 == src);
                    }
                }
                r.push((b, c));
                proof {
                    assert(r@ =~= r0 + seq![(b, c)]);
                    assert forall|j: int|
                        0 <= j < i + 1 && (#[trigger] self.entries@[j]).0 == src implies exists|
                        k: int,
                    |
                        0 <= k < r@.len() && r@[k] == (self.entries@[j].1, self.entries@[j].2) by {
                        if j < i {
                            let k = choose|k: int|
                                0 <= k < r0.len() && r0[k] == (
                                self.entries@[j].1,
                                self.entries@[j].2,
                                );
                            assert(r@[k] == (self.entries@[j].1, self.entries@[j].2));
                        } else {
                            assert(r@[r@.len() - 1] == (
                                self.entries@[i as int].1,
                                self.entries@[i as int].2,
                            ));
                        }
                    }
                }
            } else {
                proof {
                    assert(r@ =~= r0 + Seq::<(usize, usize)>::empty());
                }
            }
            i = i + 1;
        }
        proof {
            assert(self.entries@.subrange(0, n as int) =~= self.entries@);
            assert forall|k: int| 0 <= k < r@.len() implies (#[trigger] r@[k]).1 as nat
                == self.count(src, r@[k].0) && r@[k].1 >= 1 by {
                let j = choose|j: int| 0 <= j < n && self.entries@[j] == (src, r@[k].0, r@[k].1);
                lemma_seq_count_at(self.entries@, j);
            }
            assert forall|t: usize| self.count(src, t) > 0 implies exists|k: int|
                0 <= k < r@.len() && (#[trigger] r@[k]).0 == t by {
                let j = choose|j: int|
                    0 <= j < self.entries@.len() && (#[trigger] self.entries@[j]).0 == src
                        && self.entries@[j].1 == t;
                assert(exists|k: int|
                    0 <= k < r@.len() && r@[k] == (self.entries@[j].1, self.entries@[j].2));
            }
        }
        r
    }

    /// The `(src, count)` pairs of every edge arriving at `tgt`: sound,
    /// complete, and free of repeated sources.
    pub fn incoming(&self, tgt: usize) -> (r: Vec<(usize, usize)>)
        requires
            self.wf(),
        ensures
            r@ == spec_in_pairs(self.entries_view(), tgt),
            forall|k: int|
                0 <= k < r@.len() ==> (#[trigger] r@[k]).1 as nat == self.count(r@[k].0, tgt)
                    && r@[k].1 >= 1,
            forall|s: usize| self.count(s, tgt) > 0 ==> exists|k: int|
                0 <= k < r@.len() && (#[trigger] r@[k]).0 == s,
            forall|k1: int, k2: int|
                0 <= k1 < k2 < r@.len() ==> (#[trigger] r@[k1]).0 != (#[trigger] r@[k2]).0,
    {
        proof {
            self.lemma_entries_counts();
        }
        let n = self.entries.len();
        let mut r: Vec<(usize, usize)> = Vec::new();
        let mut i: usize = 0;
        while i < n
            invariant
                0 <= i <= n,
                n == self.entries@.len(),
                self.wf(),
                r@ == spec_in_pairs(self.entries@.subrange(0, i as int), tgt),
                forall|k: int|
                    0 <= k < r@.len() ==> exists|j: int|
                        0 <= j < i && self.entries@[j] == ((#[trigger] r@[k]).0, tgt, r@[k].1),
                forall|j: int|
                    0 <= j < i && (#[trigger] self.entries@[j]).1 == tgt ==> exists|k: int|
                        0 <= k < r@.len() && r@[k] == (self.entries@[j].0, self.entries@[j].2),
                forall|k1: int, k2: int|
                    0 <= k1 < k2 < r@.len() ==> (#[trigger] r@[k1]).0 != (#[trigger] r@[k2]).0,
            decreases n - i,
        {
            let ghost r0 = r@;
            proof {
                assert(self.entries@.subrange(0, i as int + 1).drop_last() =~= self.entries@.subrange(
                    0,
                    i as int,
                ));
            }
            let (a, b, c) = self.entries[i];
            if b == tgt {
                proof {
                    assert forall|k1: int|
                        0 <= k1 < r@.len() implies (#[trigger] r@[k1]).0 != a by {
                        let j = choose|j: int|
                            0 <= j < i && self.entries@[j] == (r@[k1].0, tgt, r@[k1].1);
                        assert(self.entries@[j].1 == tgt && self.entries@[i as int].1 == tgt);
                    }
                }
                r.push((a, c));
                proof {
                    assert(r@ =~= r0 + seq![(a, c)]);
                    assert forall|j: int|
                        0 <= j < i + 1 && (#[trigger] self.entries@[j]).1 == tgt implies exists|
                        k: int,
                    |
                        0 <= k < r@.len() && r@[k] == (self.entries@[j].0, self.entries@[j].2) by {
                        if j < i {
                            let k = choose|k: int|
                                0 <= k < r0.len() && r0[k] == (
                                self.entries@[j].0,
                                self.entries@[j].2,
                                );
                            assert(r@[k] == (self.entries@[j].0, self.entries@[j].2));
                        } else {
                            assert(r@[r@.len() - 1] == (
                                self.entries@[i as int].0,
                                self.entries@[i as int].2,
                            ));
                        }
                    }
                }
            } else {
                proof {
                    assert(r@ =~= r0 + Seq::<(usize, usize)>::empty());
                }
            }
            i = i + 1;
        }
        proof {
            assert(self.entries@.subrange(0, n as int) =~= self.entries@);
            assert forall|k: int| 0 <= k < r@.len() implies (#[trigger] r@[k]).1 as nat
                == self.count(r@[k].0, tgt) && r@[k].1 >= 1 by {
                let j = choose|j: int| 0 <= j < n && self.entries@[j] == (r@[k].0, tgt, r@[k].1);
                lemma_seq_count_at(self.entries@, j);
            }
            assert forall|s: usize| self.count(s, tgt) > 0 implies exists|k: int|
                0 <= k < r@.len() && (#[trigger] r@[k]).0 == s by {
                let j = choose|j: int|
                    0 <= j < self.entries@.len() && (#[trigger] self.entries@[j]).0 == s
                        && self.entries@[j].1 == tgt;
                assert(exists|k: int|
                    0 <= k < r@.len() && r@[k] == (self.entries@[j].0, self.entries@[j].2));
            }
        }
        r
    }

    /// A copy of this bag with the same entries and insertion count.
    pub fn dup(&self) -> (r: EdgeBag)
        ensures
            r.entries_view() == self.entries_view(),
            r.total() == self.total(),
            self.wf() ==> r.wf(),
    {
        let n = self.entries.len();
        let mut entries: Vec<(usize, usize, usize)> = Vec::new();
        let mut i: usize = 0;
        while i < n
            invariant
                0 <= i <= n,
                n == self.entries@.len(),
                entries@ == self.entries@.subrange(0, i as int),
            decreases n - i,
        {
            entries.push(self.entries[i]);
            proof {
                assert(entries@ =~= self.entries@.subrange(0, i as int + 1));
            }
            i = i + 1;
        }
        proof {
            assert(entries@ =~= self.entries@);
        }
        EdgeBag { entries, total: Ghost(self.total@) }
    }

    /// All entries as `(src, tgt, count)` triples.
    pub fn iter(&self) -> (r: Vec<(usize, usize, usize)>)
        ensures
            r@ == self.entries_view(),
    {
        let n = self.entries.len();
        let mut r: Vec<(usize, usize, usize)> = Vec::new();
        let mut i: usize = 0;
        while i < n
            invariant
                0 <= i <= n,
                n == self.entries@.len(),
                r@ == self.entries@.subrange(0, i as int),
            decreases n - i,
        {
            r.push(self.entries[i]);
            proof {
                assert(r@ =~= self.entries@.subrange(0, i as int + 1));
            }
            i = i + 1;
        }
        proof {
            assert(r@ =~= self.entries@);
        }
        r
    }
}

/// Occurrence count of `(a, b)` under kind `k` in a sequence of
/// kind-partitioned bags; bags later in the sequence shadow earlier ones.
pub open spec fn bag_count(s: Seq<(EdgeKind, EdgeBag)>, k: EdgeKind, a: usize, b: usize) -> nat
    decreases s.len(),
{
    if s.len() == 0 {
        0
    } else if s.last().0 == k {
        s.last().1.count(a, b)
    } else {
        bag_count(s.drop_last(), k, a, b)
    }
}

/// Bags with pairwise distinct kinds.
pub open spec fn distinct_kinds(s: Seq<(EdgeKind, EdgeBag)>) -> bool {
    forall|i: int, j: int| 0 <= i < j < s.len() ==> (#[trigger] s[i]).0 != (#[trigger] s[j]).0
}

/// A kind absent from every bag has count zero.
pub proof fn lemma_bag_count_absent(s: Seq<(EdgeKind, EdgeBag)>, k: EdgeKind, a: usize, b: usize)
    requires
        forall|i: int| 0 <= i < s.len() ==> (#[trigger] s[i]).0 != k,
    ensures
        bag_count(s, k, a, b) == 0,
    decreases s.len(),
{
    if s.len() > 0 {
        lemma_bag_count_absent(s.drop_last(), k, a, b);
    }
}

/// With distinct kinds, counts under a recorded kind come from its bag.
pub proof fn lemma_bag_count_at(s: Seq<(EdgeKind, EdgeBag)>, i: int, a: usize, b: usize)
    requires
        distinct_kinds(s),
        0 <= i < s.len(),
    ensures
        bag_count(s, s[i].0, a, b) == s[i].1.count(a, b),
    decreases s.len(),
{
    if i == s.len() - 1 {
    } else {
        assert(s.drop_last()[i] == s[i]);
        lemma_bag_count_at(s.drop_last(), i, a, b);
    }
}

/// Updating the bag that holds a kind changes that kind's counts alone.
pub proof fn lemma_bag_count_update(
    s: Seq<(EdgeKind, EdgeBag)>,
    i: int,
    e: (EdgeKind, EdgeBag),
    k: EdgeKind,
    a: usize,
    b: usize,
)
    requires
        distinct_kinds(s),
        0 <= i < s.len(),
        s[i].0 == e.0,
    ensures
        bag_count(s.update(i, e), k, a, b) == if k == e.0 {
            e.1.count(a, b)
        } else {
            bag_count(s, k, a, b)
        },
    decreases s.len(),
{
    let t = s.update(i, e);
    if i == s.len() - 1 {
        assert(t.last() == e);
        assert(t.drop_last() =~= s.drop_last());
    } else {
        assert(t.last() == s.last());
        assert(t.drop_last() =~= s.drop_last().update(i, e));
        assert(distinct_kinds(s.drop_last())) by {
            assert(forall|p: int, q: int|
                0 <= p < q < s.len() - 1 ==> s.drop_last()[p] == s[p] && s.drop_last()[q] == s[q]);
        }
        assert(s.drop_last()[i] == s[i]);
        lemma_bag_count_update(s.drop_last(), i, e, k, a, b);
        if s.last().0 == k {
            assert(k != e.0);
        }
    }
}

/// The `(tgt, count)` pairs of `kind`-edges leaving `src`, in the order
/// of the partition.
pub open spec fn spec_kinded_out(
    s: Seq<(EdgeKind, EdgeBag)>,
    kind: EdgeKind,
    src: usize,
) -> Seq<(usize, usize)>
    decreases s.len(),
{
    if s.len() == 0 {
        Seq::empty()
    } else if s.last().0 == kind {
        spec_out_pairs(s.last().1.entries_view(), src)
    } else {
        spec_kinded_out(s.drop_last(), kind, src)
    }
}

/// With distinct kinds, the pairs under a recorded kind come from its bag.
pub proof fn lemma_kinded_out_at(s: Seq<(EdgeKind, EdgeBag)>, i: int, src: usize)
    requires
        distinct_kinds(s),
        0 <= i < s.len(),
    ensures
        spec_kinded_out(s, s[i].0, src) == spec_out_pairs(s[i].1.entries_view(), src),
    decreases s.len(),
{
    if i == s.len() - 1 {
    } else {
        assert(s.drop_last()[i] == s[i]);
        lemma_kinded_out_at(s.drop_last(), i, src);
    }
}

/// A kind absent from every bag has no outgoing pairs.
pub proof fn lemma_kinded_out_absent(s: Seq<(EdgeKind, EdgeBag)>, kind: EdgeKind, src: usize)
    requires
        forall|i: int| 0 <= i < s.len() ==> (#[trigger] s[i]).0 != kind,
    ensures
        spec_kinded_out(s, kind, src) == Seq::<(usize, usize)>::empty(),
    decreases s.len(),
{
    if s.len() > 0 {
        lemma_kinded_out_absent(s.drop_last(), kind, src);
    }
}

/// A family of counting edge bags, partitioned by edge kind.
pub struct KindedEdgeBag {
    bags: Vec<(EdgeKind, EdgeBag)>,
    total: Ghost<nat>,
}

impl KindedEdgeBag {
    /// The partition as `(kind, bag)` pairs, kinds pairwise distinct.
    pub closed spec fn bags_view(&self) -> Seq<(EdgeKind, EdgeBag)> {
        self.bags@
    }

    /// Number of insertions this family has seen.
    pub closed spec fn total(&self) -> nat {
        self.total@
    }

    /// Occurrence count recorded for `(a, b)` under kind `k`.
    pub open spec fn count(&self, k: EdgeKind, a: usize, b: usize) -> nat {
        bag_count(self.bags_view(), k, a, b)
    }

    /// Well-formed: kinds are distinct and each bag is well-formed with
    /// no more insertions than the family has seen.
    pub closed spec fn wf(&self) -> bool {
        &&& distinct_kinds(self.bags@)
        &&& forall|i: int|
            0 <= i < self.bags@.len() ==> (#[trigger] self.bags@[i]).1.wf()
                && self.bags@[i].1.total() <= self.total@
    }

    /// A fresh, empty family.
    pub fn new() -> (r: KindedEdgeBag)
        ensures
            r.wf(),
            r.total() == 0,
            forall|k: EdgeKind, a: usize, b: usize| r.count(k, a, b) == 0,
    {
        KindedEdgeBag { bags: Vec::new(), total: Ghost(0) }
    }

    /// Records one more occurrence of the edge `(src, tgt)` under `kind`
    /// and returns the new count of that edge; all other counts are kept.
    pub fn insert(&mut self, kind: EdgeKind, src: usize, tgt: usize) -> (c: usize)
        requires
            old(self).wf(),
            old(self).total() < usize::MAX,
        ensures
            final(self).wf(),
            final(self).total() == old(self).total() + 1,
            final(self).count(kind, src, tgt) == old(self).count(kind, src, tgt) + 1,
            forall|k: EdgeKind, a: usize, b: usize|
                !(k == kind && a == src && b == tgt) ==> final(self).count(k, a, b) == old(
                    self,
                ).count(k, a, b),
            c as nat == final(self).count(kind, src, tgt),
    {
        let n = self.bags.len();
        let mut i: usize = 0;
        while i < n
            invariant
                0 <= i <= n,
                n == self.bags@.len(),
                *self == *old(self),
                old(self).wf(),
                old(self).total() < usize::MAX,
                forall|k: int| 0 <= k < i ==> (#[trigger] self.bags@[k]).0 != kind,
            decreases n - i,
        {
            let k0 = self.bags[i].0;
            if k0 == kind {
                proof {
                    assert forall|a: usize, b: usize| true implies old(self).count(kind, a, b)
                        == old(self).bags@[i as int].1.count(a, b) by {
                        lemma_bag_count_at(old(self).bags@, i as int, a, b);
                    }
                }
                let pair = &mut self.bags[i];
                let c = pair.1.insert(src, tgt);
                proof {
                    assert forall|k: EdgeKind, a: usize, b: usize| true implies bag_count(
                        self.bags@,
                        k,
                        a,
                        b,
                    ) == if k == kind {
                        pair.1.count(a, b)
                    } else {
                        bag_count(old(self).bags@, k, a, b)
                    } by {
                        lemma_bag_count_update(
                            old(self).bags@,
                            i as int,
                            (kind, pair.1),
                            k,
                            a,
                            b,
                        );
                    }
                    self.total = Ghost(old(self).total@ + 1);
                }
                return c;
            }
            i = i + 1;
        }
        proof {
            assert forall|a: usize, b: usize| true implies self.count(kind, a, b) == 0 by {
                lemma_bag_count_absent(self.bags@, kind, a, b);
            }
        }
        let mut bag = EdgeBag::new();
        let c = bag.insert(src, tgt);
        self.bags.push((kind, bag));
        proof {
            self.total = Ghost(old(self).total@ + 1);
            assert(self.bags@.drop_last() =~= old(self).bags@);
            assert(self.bags@.last() == (kind, bag));
        }
        c
    }

    /// The `(tgt, count)` pairs of every `kind`-edge leaving `src`.
    pub fn outgoing(&self, kind: EdgeKind, src: usize) -> (r: Vec<(usize, usize)>)
        requires
            self.wf(),
        ensures
            r@ == spec_kinded_out(self.bags_view(), kind, src),
            forall|k: int|
                0 <= k < r@.len() ==> (#[trigger] r@[k]).1 as nat == self.count(kind, src, r@[k].0)
                    && r@[k].1 >= 1,
            forall|t: usize| self.count(kind, src, t) > 0 ==> exists|k: int|
                0 <= k < r@.len() && (#[trigger] r@[k]).0 == t,
            forall|k1: int, k2: int|
                0 <= k1 < k2 < r@.len() ==> (#[trigger] r@[k1]).0 != (#[trigger] r@[k2]).0,
    {
        let n = self.bags.len();
        let mut i: usize = 0;
        while i < n
            invariant
                0 <= i <= n,
                n == self.bags@.len(),
                self.wf(),
                forall|k: int| 0 <= k < i ==> (#[trigger] self.bags@[k]).0 != kind,
            decreases n - i,
        {
            let k0 = self.bags[i].0;
            if k0 == kind {
                proof {
                    assert forall|a: usize, b: usize| true implies self.count(kind, a, b)
                        == self.bags@[i as int].1.count(a, b) by {
                        lemma_bag_count_at(self.bags@, i as int, a, b);
                    }
                    lemma_kinded_out_at(self.bags@, i as int, src);
                }
                let r = self.bags[i].1.outgoing(src);
                return r;
            }
            i = i + 1;
        }
        proof {
            assert forall|t: usize| true implies self.count(kind, src, t) == 0 by {
                lemma_bag_count_absent(self.bags@, kind, src, t);
            }
            lemma_kinded_out_absent(self.bags@, kind, src);
        }
        Vec::new()
    }

    /// The `(src, count)` pairs of every `kind`-edge arriving at `tgt`.
    pub fn incoming(&self, kind: EdgeKind, tgt: usize) -> (r: Vec<(usize, usize)>)
        requires
            self.wf(),
        ensures
            forall|k: int|
                0 <= k < r@.len() ==> (#[trigger] r@[k]).1 as nat == self.count(kind, r@[k].0, tgt)
                    && r@[k].1 >= 1,
            forall|s: usize| self.count(kind, s, tgt) > 0 ==> exists|k: int|
                0 <= k < r@.len() && (#[trigger] r@[k]).0 == s,
            forall|k1: int, k2: int|
                0 <= k1 < k2 < r@.len() ==> (#[trigger] r@[k1]).0 != (#[trigger] r@[k2]).0,
    {
        let n = self.bags.len();
        let mut i: usize = 0;
        while i < n
            invariant
                0 <= i <= n,
                n == self.bags@.len(),
                self.wf(),
                forall|k: int| 0 <= k < i ==> (#[trigger] self.bags@[k]).0 != kind,
            decreases n - i,
        {
            let k0 = self.bags[i].0;
            if k0 == kind {
                proof {
                    assert forall|a: usize, b: usize| true implies self.count(kind, a, b)
                        == self.bags@[i as int].1.count(a, b) by {
                        lemma_bag_count_at(self.bags@, i as int, a, b);
                    }
                }
                let r = self.bags[i].1.incoming(tgt);
                return r;
            }
            i = i + 1;
        }
        proof {
            assert forall|s: usize| true implies self.count(kind, s, tgt) == 0 by {
                lemma_bag_count_absent(self.bags@, kind, s, tgt);
            }
        }
        Vec::new()
    }

    /// A copy of this family with the same counts and insertion count.
    pub fn dup(&self) -> (r: KindedEdgeBag)
        requires
            self.wf(),
        ensures
            r.wf(),
            r.total() == self.total(),
            forall|k: EdgeKind, a: usize, b: usize| r.count(k, a, b) == self.count(k, a, b),
    {
        let n = self.bags.len();
        let mut bags: Vec<(EdgeKind, EdgeBag)> = Vec::new();
        let mut i: usize = 0;
        while i < n
            invariant
                0 <= i <= n,
                n == self.bags@.len(),
                self.wf(),
                bags@.len() == i,
                forall|j: int|
                    0 <= j < i ==> (#[trigger] bags@[j]).0 == self.bags@[j].0
                        && bags@[j].1.entries_view() == self.bags@[j].1.entries_view()
                        && bags@[j].1.total() == self.bags@[j].1.total() && bags@[j].1.wf(),
                forall|k: EdgeKind, a: usize, b: usize|
                    bag_count(bags@, k, a, b) == bag_count(
                        self.bags@.subrange(0, i as int),
                        k,
                        a,
                        b,
                    ),
            decreases n - i,
        {
            let ghost bags0 = bags@;
            let kind = self.bags[i].0;
            let copy = self.bags[i].1.dup();
            bags.push((kind, copy));
            proof {
                assert(bags@.drop_last() =~= bags0);
                assert(self.bags@.subrange(0, i as int + 1).drop_last() =~= self.bags@.subrange(
                    0,
                    i as int,
                ));
                assert forall|k: EdgeKind, a: usize, b: usize| true implies bag_count(
                    bags@,
                    k,
                    a,
                    b,
                ) == bag_count(self.bags@.subrange(0, i as int + 1), k, a, b) by {
                    assert(bags@.last() == (kind, copy));
                    assert(self.bags@.subrange(0, i as int + 1).last() == self.bags@[i as int]);
                    if k == kind {
                        assert(bag_count(bags@, k, a, b) == copy.count(a, b));
                        assert(bag_count(self.bags@.subrange(0, i as int + 1), k, a, b)
                            == self.bags@[i as int].1.count(a, b));
                        assert(copy.count(a, b) == self.bags@[i as int].1.count(a, b));
                    } else {
                        assert(bag_count(bags@, k, a, b) == bag_count(bags0, k, a, b));
                        assert(bag_count(self.bags@.subrange(0, i as int + 1), k, a, b)
                            == bag_count(self.bags@.subrange(0, i as int), k, a, b));
                    }
                }
            }
            i = i + 1;
        }
        proof {
            assert(self.bags@.subrange(0, n as int) =~= self.bags@);
            assert forall|k: EdgeKind, a: usize, b: usize| true implies bag_count(bags@, k, a, b)
                == bag_count(self.bags@, k, a, b) by {
            }
        }
        let r = KindedEdgeBag { bags, total: Ghost(self.total@) };
        r
    }

    /// Every recorded edge as a `(kind, src, tgt, count)` quadruple:
    /// sound, complete, and free of repeated `(kind, src, tgt)` keys.
    pub fn iter(&self) -> (r: Vec<(EdgeKind, usize, usize, usize)>)
        requires
            self.wf(),
        ensures
            forall|q: int|
                0 <= q < r@.len() ==> self.count(
                    (#[trigger] r@[q]).0,
                    r@[q].1,
                    r@[q].2,
                ) == r@[q].3 as nat && r@[q].3 >= 1,
            forall|k: EdgeKind, a: usize, b: usize|
                self.count(k, a, b) > 0 ==> exists|q: int|
                    0 <= q < r@.len() && (#[trigger] r@[q]).0 == k && r@[q].1 == a && r@[q].2 == b,
            forall|q1: int, q2: int|
                0 <= q1 < q2 < r@.len() ==> !((#[trigger] r@[q1]).0 == (#[trigger] r@[q2]).0
                    && r@[q1].1 == r@[q2].1 && r@[q1].2 == r@[q2].2),
    {
        let n = self.bags.len();
        let mut r: Vec<(EdgeKind, usize, usize, usize)> = Vec::new();
        let mut i: usize = 0;
        while i < n
            invariant
                0 <= i <= n,
                n == self.bags@.len(),
                self.wf(),
                forall|q: int|
                    0 <= q < r@.len() ==> self.count(
                        (#[trigger] r@[q]).0,
                        r@[q].1,
                        r@[q].2,
                    ) == r@[q].3 as nat && r@[q].3 >= 1,
                forall|q: int|
                    0 <= q < r@.len() ==> exists|j: int|
                        0 <= j < i && (#[trigger] r@[q]).0 == self.bags@[j].0,
                forall|j: int, e: int|
                    0 <= j < i && 0 <= e < self.bags@[j].1.entries_view().len() ==> exists|q: int|
                        0 <= q < r@.len() && (#[trigger] r@[q]) == (
                            self.bags@[j].0,
                            (#[trigger] self.bags@[j].1.entries_view()[e]).0,
                            self.bags@[j].1.entries_view()[e].1,
                            self.bags@[j].1.entries_view()[e].2,
                        ),
                forall|q1: int, q2: int|
                    0 <= q1 < q2 < r@.len() ==> !((#[trigger] r@[q1]).0 == (#[trigger] r@[q2]).0
                        && r@[q1].1 == r@[q2].1 && r@[q1].2 == r@[q2].2),
            decreases n - i,
        {
            let ghost r0 = r@;
            let kind = self.bags[i].0;
            proof {
                assert forall|a: usize, b: usize| true implies self.count(kind, a, b)
                    == self.bags@[i as int].1.count(a, b) by {
                    lemma_bag_count_at(self.bags@, i as int, a, b);
                }
                self.bags@[i as int].1.lemma_entries_counts();
                assert forall|q: int|
                    0 <= q < r@.len() implies (#[trigger] r@[q]).0 != kind by {
                    let j = choose|j: int| 0 <= j < i && r@[q].0 == self.bags@[j].0;
                }
            }
            let triples = self.bags[i].1.iter();
            append_quads(&mut r, kind, &triples);
            proof {
                let ghost entries = self.bags@[i as int].1.entries_view();
                assert forall|q: int| 0 <= q < r@.len() implies self.count(
                    (#[trigger] r@[q]).0,
                    r@[q].1,
                    r@[q].2,
                ) == r@[q].3 as nat && r@[q].3 >= 1 by {
                    if q < r0.len() {
                        assert(r@[q] == r0[q]);
                    } else {
                        assert(r@[q] == (
                            kind,
                            entries[q - r0.len()].0,
                            entries[q - r0.len()].1,
                            entries[q - r0.len()].2,
                        ));
                        lemma_seq_count_at(entries, q - r0.len());
                    }
                }
                assert forall|q: int| 0 <= q < r@.len() implies exists|j: int|
                    0 <= j < i + 1 && (#[trigger] r@[q]).0 == self.bags@[j].0 by {
                    if q < r0.len() {
                        let j = choose|j: int| 0 <= j < i && r0[q].0 == self.bags@[j].0;
                        assert(r@[q] == r0[q]);
                    } else {
                        assert(r@[q] == (
                            kind,
                            entries[q - r0.len()].0,
                            entries[q - r0.len()].1,
                            entries[q - r0.len()].2,
                        ));
                    }
                }
                assert forall|j: int, e: int|
                    0 <= j < i + 1 && 0 <= e < self.bags@[j].1.entries_view().len() implies exists|
                        q: int,
                    |
                        0 <= q < r@.len() && (#[trigger] r@[q]) == (
                            self.bags@[j].0,
                            (#[trigger] self.bags@[j].1.entries_view()[e]).0,
                            self.bags@[j].1.entries_view()[e].1,
                            self.bags@[j].1.entries_view()[e].2,
                        ) by {
                    if j < i {
                        let q = choose|q: int|
                            0 <= q < r0.len() && r0[q] == (
                                self.bags@[j].0,
                                self.bags@[j].1.entries_view()[e].0,
                                self.bags@[j].1.entries_view()[e].1,
                                self.bags@[j].1.entries_view()[e].2,
                            );
                        assert(r@[q] == r0[q]);
                    } else {
                        assert(r@[r0.len() + e] == (
                            kind,
                            entries[e].0,
                            entries[e].1,
                            entries[e].2,
                        ));
                    }
                }
                assert forall|q1: int, q2: int|
                    0 <= q1 < q2 < r@.len() implies !((#[trigger] r@[q1]).0
                    == (#[trigger] r@[q2]).0 && r@[q1].1 == r@[q2].1 && r@[q1].2 == r@[q2].2) by {
                    if q1 < r0.len() && q2 < r0.len() {
                        assert(r@[q1] == r0[q1] && r@[q2] == r0[q2]);
                    } else if q1 < r0.len() && q2 >= r0.len() {
                        assert(r@[q1] == r0[q1]);
                        assert(r0[q1].0 != kind);
                        assert(r@[q2].0 == kind);
                    } else {
                        assert(r@[q1] == (
                            kind,
                            entries[q1 - r0.len()].0,
                            entries[q1 - r0.len()].1,
                            entries[q1 - r0.len()].2,
                        ));
                        assert(r@[q2] == (
                            kind,
                            entries[q2 - r0.len()].0,
                            entries[q2 - r0.len()].1,
                            entries[q2 - r0.len()].2,
                        ));
                    }
                }
            }
            i = i + 1;
        }
        proof {
            assert forall|k: EdgeKind, a: usize, b: usize|
                self.count(k, a, b) > 0 implies exists|q: int|
                0 <= q < r@.len() && (#[trigger] r@[q]).0 == k && r@[q].1 == a && r@[q].2
                    == b by {
                if forall|j: int| 0 <= j < self.bags@.len() ==> (#[trigger] self.bags@[j]).0 != k {
                    lemma_bag_count_absent(self.bags@, k, a, b);
                } else {
                    let j = choose|j: int|
                        0 <= j < self.bags@.len() && (#[trigger] self.bags@[j]).0 == k;
                    lemma_bag_count_at(self.bags@, j, a, b);
                    self.bags@[j].1.lemma_entries_counts();
                    let x = choose|x: int|
                        0 <= x < self.bags@[j].1.entries_view().len() && (
                        #[trigger] self.bags@[j].1.entries_view()[x]).0 == a
                            && self.bags@[j].1.entries_view()[x].1 == b;
                    let q = choose|q: int|
                        0 <= q < r@.len() && (#[trigger] r@[q]) == (
                            self.bags@[j].0,
                            self.bags@[j].1.entries_view()[x].0,
                            self.bags@[j].1.entries_view()[x].1,
                            self.bags@[j].1.entries_view()[x].2,
                        );
                }
            }
        }
        r
    }
}

/// Appends one kind's counted edges to a list of quadruples.
fn append_quads(
    r: &mut Vec<(EdgeKind, usize, usize, usize)>,
    kind: EdgeKind,
    triples: &Vec<(usize, usize, usize)>,
)
    ensures
        final(r)@.len() == old(r)@.len() + triples@.len(),
        forall|q: int| 0 <= q < old(r)@.len() ==> final(r)@[q] == old(r)@[q],
        forall|x: int|
            0 <= x < triples@.len() ==> final(r)@[old(r)@.len() + x] == (
                kind,
                (#[trigger] triples@[x]).0,
                triples@[x].1,
                triples@[x].2,
            ),
{
    let m = triples.len();
    let mut e: usize = 0;
    while e < m
        invariant
            0 <= e <= m,
            m == triples@.len(),
            r@.len() == old(r)@.len() + e,
            forall|q: int| 0 <= q < old(r)@.len() ==> r@[q] == old(r)@[q],
            forall|x: int|
                0 <= x < e ==> r@[old(r)@.len() + x] == (
                    kind,
                    (#[trigger] triples@[x]).0,
                    triples@[x].1,
                    triples@[x].2,
                ),
        decreases m - e,
    {
        let (a, b, c) = triples[e];
        r.push((kind, a, b, c));
        e = e + 1;
    }
}

} // verus!
