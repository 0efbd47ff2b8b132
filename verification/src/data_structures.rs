//! Set-semantics edge stores keyed by plain string kinds, and a book of
//! named facts per node: companions to the counting stores, used by
//! consumers that need membership rather than multiplicity.

use vstd::prelude::*;
use crate::strutil::str_eq;

verus! {

/// Dense node handle for the set-semantics stores.
#[derive(Copy, Clone, Debug, Default, PartialEq, Eq, Structural, Hash)]
pub struct NodeId(pub usize);

/// A set of directed edges over dense node handles; inserting an edge
/// twice keeps one copy.
pub struct EdgeSet {
    pairs: Vec<(usize, usize)>,
}

impl EdgeSet {
    /// The recorded edges, pairwise distinct.
    pub closed spec fn pairs_view(&self) -> Seq<(usize, usize)> {
        self.pairs@
    }

    /// The edge `(a, b)` was recorded.
    pub open spec fn has_edge(&self, a: usize, b: usize) -> bool {
        self.pairs_view().contains((a, b))
    }

    /// Well-formed: no edge is recorded twice.
    pub closed spec fn wf(&self) -> bool {
        forall|i: int, j: int| 0 <= i < j < self.pairs@.len() ==> self.pairs@[i] != self.pairs@[j]
    }

    /// A fresh, empty edge set.
    pub fn new() -> (r: EdgeSet)
        ensures
            r.wf(),
            forall|a: usize, b: usize| !r.has_edge(a, b),
    {
        let r = EdgeSet { pairs: Vec::new() };
        proof {
            assert forall|a: usize, b: usize| !r.has_edge(a, b) by {
                if r.pairs@.contains((a, b)) {
                    let w = choose|w: int| 0 <= w < r.pairs@.len() && r.pairs@[w] == (a, b);
                }
            }
        }
        r
    }

    /// Records the edge `(src, tgt)`; all recorded edges are kept.
    pub fn add(&mut self, src: usize, tgt: usize) -> (r: bool)
        requires
            old(self).wf(),
        ensures
            final(self).wf(),
            final(self).has_edge(src, tgt),
            forall|a: usize, b: usize|
                !(a == src && b == tgt) ==> final(self).has_edge(a, b) == old(self).has_edge(a, b),
            r == !old(self).has_edge(src, tgt),
    {
        if self.contains(&src, &tgt) {
            return false;
        }
        self.pairs.push((src, tgt));
        proof {
            assert(self.pairs@.drop_last() =~= old(self).pairs@);
            assert(self.pairs@[self.pairs@.len() - 1] == (src, tgt));
            assert forall|a: usize, b: usize| true implies #[trigger] self.has_edge(a, b) == (old(
                self,
            ).has_edge(a, b) || (a == src && b == tgt)) by {
                if old(self).has_edge(a, b) {
                    let w = choose|w: int|
                        0 <= w < old(self).pairs@.len() && old(self).pairs@[w] == (a, b);
                    assert(self.pairs@[w] == (a, b));
                }
                if self.has_edge(a, b) && !(a == src && b == tgt) {
                    let w = choose|w: int| 0 <= w < self.pairs@.len() && self.pairs@[w] == (a, b);
                    assert(old(self).pairs@[w] == (a, b));
                    assert(old(self).pairs@.contains((a, b)));
                }
            }
        }
        true
    }

    /// Whether the edge `(src, tgt)` was recorded.
    pub fn contains(&self, src: &usize, tgt: &usize) -> (r: bool)
        ensures
            r == self.has_edge(*src, *tgt),
    {
        let n = self.pairs.len();
        let mut i: usize = 0;
        while i < n
            invariant
                0 <= i <= n,
                n == self.pairs@.len(),
                forall|k: int| 0 <= k < i ==> self.pairs@[k] != (*src, *tgt),
            decreases n - i,
        {
            let (a, b) = self.pairs[i];
            if a == *src && b == *tgt {
                proof {
                    assert(self.pairs@.contains((*src, *tgt)));
                }
                return true;
            }
            i = i + 1;
        }
        proof {
            if self.pairs@.contains((*src, *tgt)) {
                let w = choose|w: int|
                    0 <= w < self.pairs@.len() && self.pairs@[w] == (*src, *tgt);
            }
        }
        false
    }

    /// The distinct sources of edges arriving at `tgt`, or nothing when
    /// no edge arrives there.
    pub fn incoming(&self, tgt: &usize) -> (r: Option<Vec<usize>>)
        requires
            self.wf(),
        ensures
            match r {
                Some(v) => v@.len() >= 1 && (forall|k: int|
                    0 <= k < v@.len() ==> self.has_edge(#[trigger] v@[k], *tgt)) && (forall|
                    s: usize,
                |
                    self.has_edge(s, *tgt) ==> v@.contains(s)) && (forall|k1: int, k2: int|
                    0 <= k1 < k2 < v@.len() ==> v@[k1] != v@[k2]),
                None => forall|s: usize| !self.has_edge(s, *tgt),
            },
    {
        let n = self.pairs.len();
        let mut v: Vec<usize> = Vec::new();
        let mut i: usize = 0;
        while i < n
            invariant
                0 <= i <= n,
                n == self.pairs@.len(),
                self.wf(),
                forall|k: int|
                    0 <= k < v@.len() ==> exists|j: int|
                        0 <= j < i && self.pairs@[j] == (#[trigger] v@[k], *tgt),
                forall|j: int|
                    0 <= j < i && (#[trigger] self.pairs@[j]).1 == *tgt ==> v@.contains(
                        self.pairs@[j].0,
                    ),
                forall|k1: int, k2: int| 0 <= k1 < k2 < v@.len() ==> v@[k1] != v@[k2],
            decreases n - i,
        {
            let ghost v0 = v@;
            let (a, b) = self.pairs[i];
            if b == *tgt {
                proof {
                    assert forall|k1: int| 0 <= k1 < v@.len() implies v@[k1] != a by {
                        let j = choose|j: int| 0 <= j < i && self.pairs@[j] == (v@[k1], *tgt);
                        assert(self.pairs@[j] != self.pairs@[i as int]);
                    }
                }
                v.push(a);
                proof {
                    assert forall|j: int|
                        0 <= j < i + 1 && (#[trigger] self.pairs@[j]).1 == *tgt implies v@.contains(
                        self.pairs@[j].0,
                    ) by {
                        if j < i {
                            let k = choose|k: int| 0 <= k < v0.len() && v0[k] == self.pairs@[j].0;
                            assert(v@[k] == self.pairs@[j].0);
                        } else {
                            assert(v@[v@.len() - 1] == self.pairs@[i as int].0);
                        }
                    }
                }
            }
            i = i + 1;
        }
        if v.len() == 0 {
            proof {
                assert forall|s: usize| true implies !self.has_edge(s, *tgt) by {
                    if self.pairs@.contains((s, *tgt)) {
                        let j = choose|j: int|
                            0 <= j < self.pairs@.len() && self.pairs@[j] == (s, *tgt);
                        assert(v@.contains(self.pairs@[j].0));
                    }
                }
            }
            None
        } else {
            proof {
                assert forall|k: int| 0 <= k < v@.len() implies self.has_edge(
                    #[trigger] v@[k],
                    *tgt,
                ) by {
                    let j = choose|j: int| 0 <= j < n && self.pairs@[j] == (v@[k], *tgt);
                    assert(self.pairs@.contains((v@[k], *tgt)));
                }
                assert forall|s: usize| self.has_edge(s, *tgt) implies v@.contains(s) by {
                    let j = choose|j: int|
                        0 <= j < self.pairs@.len() && self.pairs@[j] == (s, *tgt);
                }
            }
            Some(v)
        }
    }

    /// The distinct targets of edges leaving `src`, or nothing when no
    /// edge leaves there.
    pub fn outgoing(&self, src: &usize) -> (r: Option<Vec<usize>>)
        requires
            self.wf(),
        ensures
            match r {
                Some(v) => v@.len() >= 1 && (forall|k: int|
                    0 <= k < v@.len() ==> self.has_edge(*src, #[trigger] v@[k])) && (forall|
                    t: usize,
                |
                    self.has_edge(*src, t) ==> v@.contains(t)) && (forall|k1: int, k2: int|
                    0 <= k1 < k2 < v@.len() ==> v@[k1] != v@[k2]),
                None => forall|t: usize| !self.has_edge(*src, t),
            },
    {
        let n = self.pairs.len();
        let mut v: Vec<usize> = Vec::new();
        let mut i: usize = 0;
        while i < n
            invariant
                0 <= i <= n,
                n == self.pairs@.len(),
                self.wf(),
                forall|k: int|
                    0 <= k < v@.len() ==> exists|j: int|
                        0 <= j < i && self.pairs@[j] == (*src, #[trigger] v@[k]),
                forall|j: int|
                    0 <= j < i && (#[trigger] self.pairs@[j]).0 == *src ==> v@.contains(
                        self.pairs@[j].1,
                    ),
                forall|k1: int, k2: int| 0 <= k1 < k2 < v@.len() ==> v@[k1] != v@[k2],
            decreases n - i,
        {
            let ghost v0 = v@;
            let (a, b) = self.pairs[i];
            if a == *src {
                proof {
                    assert forall|k1: int| 0 <= k1 < v@.len() implies v@[k1] != b by {
                        let j = choose|j: int| 0 <= j < i && self.pairs@[j] == (*src, v@[k1]);
                        assert(self.pairs@[j] != self.pairs@[i as int]);
                    }
                }
                v.push(b);
                proof {
                    assert forall|j: int|
                        0 <= j < i + 1 && (#[trigger] self.pairs@[j]).0 == *src implies v@.contains(
                        self.pairs@[j].1,
                    ) by {
                        if j < i {
                            let k = choose|k: int| 0 <= k < v0.len() && v0[k] == self.pairs@[j].1;
                            assert(v@[k] == self.pairs@[j].1);
                        } else {
                            assert(v@[v@.len() - 1] == self.pairs@[i as int].1);
                        }
                    }
                }
            }
            i = i + 1;
        }
        if v.len() == 0 {
            proof {
                assert forall|t: usize| true implies !self.has_edge(*src, t) by {
                    if self.pairs@.contains((*src, t)) {
                        let j = choose|j: int|
                            0 <= j < self.pairs@.len() && self.pairs@[j] == (*src, t);
                        assert(v@.contains(self.pairs@[j].1));
                    }
                }
            }
            None
        } else {
            proof {
                assert forall|k: int| 0 <= k < v@.len() implies self.has_edge(
                    *src,
                    #[trigger] v@[k],
                ) by {
                    let j = choose|j: int| 0 <= j < n && self.pairs@[j] == (*src, v@[k]);
                    assert(self.pairs@.contains((*src, v@[k])));
                }
                assert forall|t: usize| self.has_edge(*src, t) implies v@.contains(t) by {
                    let j = choose|j: int|
                        0 <= j < self.pairs@.len() && self.pairs@[j] == (*src, t);
                }
            }
            Some(v)
        }
    }

    /// All recorded edges as `(src, tgt)` pairs.
    pub fn iter(&self) -> (r: Vec<(usize, usize)>)
        ensures
            r@ == self.pairs_view(),
    {
        let n = self.pairs.len();
        let mut r: Vec<(usize, usize)> = Vec::new();
        let mut i: usize = 0;
        while i < n
            invariant
                0 <= i <= n,
                n == self.pairs@.len(),
                r@ == self.pairs@.subrange(0, i as int),
            decreases n - i,
        {
            r.push(self.pairs[i]);
            proof {
                assert(r@ =~= self.pairs@.subrange(0, i as int + 1));
            }
            i = i + 1;
        }
        proof {
            assert(r@ =~= self.pairs@);
        }
        r
    }
}

/// The edge set recorded under a kind in a sequence of kinded sets; sets
/// later in the sequence shadow earlier ones.
pub open spec fn spec_set_has(s: Seq<(String, EdgeSet)>, kind: Seq<char>, a: usize, b: usize) -> bool
    decreases s.len(),
{
    if s.len() == 0 {
        false
    } else if s.last().0@ == kind {
        s.last().1.has_edge(a, b)
    } else {
        spec_set_has(s.drop_last(), kind, a, b)
    }
}

/// A family of edge sets, partitioned by a plain string edge kind.
pub struct KindedEdgeSet {
    sets: Vec<(String, EdgeSet)>,
}

impl KindedEdgeSet {
    /// The partition as `(kind, set)` pairs, kinds pairwise distinct.
    pub closed spec fn sets_view(&self) -> Seq<(String, EdgeSet)> {
        self.sets@
    }

    /// The edge `(a, b)` was recorded under kind `k`.
    pub open spec fn has_edge(&self, k: Seq<char>, a: usize, b: usize) -> bool {
        spec_set_has(self.sets_view(), k, a, b)
    }

    /// Well-formed: kinds are distinct and each set is well-formed.
    pub closed spec fn wf(&self) -> bool {
        &&& forall|i: int, j: int|
            0 <= i < j < self.sets@.len() ==> (#[trigger] self.sets@[i]).0@ != (
            #[trigger] self.sets@[j]).0@
        &&& forall|i: int| 0 <= i < self.sets@.len() ==> (#[trigger] self.sets@[i]).1.wf()
    }

    /// A fresh, empty family.
    pub fn new() -> (r: KindedEdgeSet)
        ensures
            r.wf(),
            forall|k: Seq<char>, a: usize, b: usize| !r.has_edge(k, a, b),
    {
        KindedEdgeSet { sets: Vec::new() }
    }

    /// Records the edge `(src, tgt)` under `edge_kind`; all recorded
    /// edges are kept.
    pub fn add(&mut self, edge_kind: String, src: usize, tgt: usize)
        requires
            old(self).wf(),
        ensures
            final(self).wf(),
            final(self).has_edge(edge_kind@, src, tgt),
            forall|k: Seq<char>, a: usize, b: usize|
                !(k == edge_kind@ && a == src && b == tgt) ==> final(self).has_edge(k, a, b) == old(
                    self,
                ).has_edge(k, a, b),
    {
        let n = self.sets.len();
        let mut i: usize = 0;
        while i < n
            invariant
                0 <= i <= n,
                n == self.sets@.len(),
                *self == *old(self),
                old(self).wf(),
                forall|k: int| 0 <= k < i ==> (#[trigger] self.sets@[k]).0@ != edge_kind@,
            decreases n - i,
        {
            if str_eq(self.sets[i].0.as_str(), edge_kind.as_str()) {
                proof {
                    assert forall|k: Seq<char>, a: usize, b: usize| true implies old(
                        self,
                    ).has_edge(k, a, b) == if k == edge_kind@ {
                        old(self).sets@[i as int].1.has_edge(a, b)
                    } else {
                        old(self).has_edge(k, a, b)
                    } by {
                        if k == edge_kind@ {
                            lemma_set_at(old(self).sets@, i as int, k, a, b);
                        }
                    }
                }
                let pair = &mut self.sets[i];
                pair.1.add(src, tgt);
                proof {
                    assert forall|k: Seq<char>, a: usize, b: usize| true implies spec_set_has(
                        self.sets@,
                        k,
                        a,
                        b,
                    ) == if k == edge_kind@ {
                        pair.1.has_edge(a, b)
                    } else {
                        spec_set_has(old(self).sets@, k, a, b)
                    } by {
                        assert(self.sets@ =~= old(self).sets@.update(
                            i as int,
                            (old(self).sets@[i as int].0, pair.1),
                        ));
                        lemma_set_update(
                            old(self).sets@,
                            i as int,
                            (old(self).sets@[i as int].0, pair.1),
                            k,
                            a,
                            b,
                        );
                    }
                }
                return ;
            }
            i = i + 1;
        }
        proof {
            assert forall|k: Seq<char>, a: usize, b: usize|
                k == edge_kind@ implies !old(self).has_edge(k, a, b) by {
                lemma_set_absent(old(self).sets@, k, a, b);
            }
        }
        let mut set = EdgeSet::new();
        set.add(src, tgt);
        self.sets.push((edge_kind, set));
        proof {
            assert(self.sets@.drop_last() =~= old(self).sets@);
        }
    }

    /// Whether the edge `(src, tgt)` was recorded under `edge_kind`.
    pub fn contains(&self, edge_kind: &str, src: &usize, tgt: &usize) -> (r: bool)
        requires
            self.wf(),
        ensures
            r == self.has_edge(edge_kind@, *src, *tgt),
    {
        match self.find_set(edge_kind) {
            None => false,
            Some(i) => self.sets[i].1.contains(src, tgt),
        }
    }

    /// The distinct sources of `edge_kind`-edges arriving at `tgt`, or
    /// nothing when no such edge arrives there.
    pub fn incoming(&self, edge_kind: &str, tgt: &usize) -> (r: Option<Vec<usize>>)
        requires
            self.wf(),
        ensures
            match r {
                Some(v) => v@.len() >= 1 && (forall|k: int|
                    0 <= k < v@.len() ==> self.has_edge(edge_kind@, #[trigger] v@[k], *tgt)) && (
                forall|s: usize| self.has_edge(edge_kind@, s, *tgt) ==> v@.contains(s)) && (forall|
                    k1: int,
                    k2: int,
                |
                    0 <= k1 < k2 < v@.len() ==> v@[k1] != v@[k2]),
                None => forall|s: usize| !self.has_edge(edge_kind@, s, *tgt),
            },
    {
        match self.find_set(edge_kind) {
            None => None,
            Some(i) => self.sets[i].1.incoming(tgt),
        }
    }

    /// The distinct targets of `edge_kind`-edges leaving `src`, or
    /// nothing when no such edge leaves there.
    pub fn outgoing(&self, edge_kind: &str, src: &usize) -> (r: Option<Vec<usize>>)
        requires
            self.wf(),
        ensures
            match r {
                Some(v) => v@.len() >= 1 && (forall|k: int|
                    0 <= k < v@.len() ==> self.has_edge(edge_kind@, *src, #[trigger] v@[k])) && (
                forall|t: usize| self.has_edge(edge_kind@, *src, t) ==> v@.contains(t)) && (forall|
                    k1: int,
                    k2: int,
                |
                    0 <= k1 < k2 < v@.len() ==> v@[k1] != v@[k2]),
                None => forall|t: usize| !self.has_edge(edge_kind@, *src, t),
            },
    {
        match self.find_set(edge_kind) {
            None => None,
            Some(i) => self.sets[i].1.outgoing(src),
        }
    }

    /// All kinds under which the edge `(src, tgt)` was recorded.
    pub fn between(&self, src: &usize, tgt: &usize) -> (r: Vec<String>)
        requires
            self.wf(),
        ensures
            forall|k: int|
                0 <= k < r@.len() ==> self.has_edge((#[trigger] r@[k])@, *src, *tgt),
            forall|kv: Seq<char>|
                self.has_edge(kv, *src, *tgt) ==> exists|k: int|
                    0 <= k < r@.len() && (#[trigger] r@[k])@ == kv,
            forall|k1: int, k2: int| 0 <= k1 < k2 < r@.len() ==> (#[trigger] r@[k1])@ != (
            #[trigger] r@[k2])@,
    {
        let n = self.sets.len();
        let mut r: Vec<String> = Vec::new();
        let ghost mut js: Seq<int> = Seq::empty();
        let mut i: usize = 0;
        while i < n
            invariant
                0 <= i <= n,
                n == self.sets@.len(),
                self.wf(),
                js.len() == r@.len(),
                forall|k: int|
                    0 <= k < r@.len() ==> 0 <= #[trigger] js[k] < i && (r@[k])@
                        == self.sets@[js[k]].0@ && self.sets@[js[k]].1.has_edge(*src, *tgt),
                forall|k1: int, k2: int| 0 <= k1 < k2 < r@.len() ==> js[k1] != js[k2],
                forall|j: int|
                    0 <= j < i && (#[trigger] self.sets@[j]).1.has_edge(*src, *tgt) ==> exists|
                        k: int,
                    |
                        0 <= k < r@.len() && #[trigger] js[k] == j,
            decreases n - i,
        {
            let ghost r0 = r@;
            let ghost js0 = js;
            if self.sets[i].1.contains(src, tgt) {
                r.push(self.sets[i].0.clone());
                proof {
                    js = js.push(i as int);
                    assert(r@[r@.len() - 1]@ == self.sets@[i as int].0@);
                    assert(js[js.len() - 1] == i as int);
                    assert forall|j: int|
                        0 <= j < i + 1 && (#[trigger] self.sets@[j]).1.has_edge(
                            *src,
                            *tgt,
                        ) implies exists|k: int| 0 <= k < r@.len() && #[trigger] js[k] == j by {
                        if j < i {
                            let k = choose|k: int| 0 <= k < r0.len() && #[trigger] js0[k] == j;
                            assert(js[k] == j);
                        } else {
                            assert(js[js.len() - 1] == j);
                        }
                    }
                }
            } else {
                proof {
                    assert forall|j: int|
                        0 <= j < i + 1 && (#[trigger] self.sets@[j]).1.has_edge(
                            *src,
                            *tgt,
                        ) implies exists|k: int| 0 <= k < r@.len() && #[trigger] js[k] == j by {
                        if j < i {
                            let k = choose|k: int| 0 <= k < r0.len() && #[trigger] js0[k] == j;
                            assert(js[k] == j);
                        }
                    }
                }
            }
            i = i + 1;
        }
        proof {
            assert forall|k: int| 0 <= k < r@.len() implies self.has_edge(
                (#[trigger] r@[k])@,
                *src,
                *tgt,
            ) by {
                lemma_set_at(self.sets@, js[k], r@[k]@, *src, *tgt);
            }
            assert forall|kv: Seq<char>| self.has_edge(kv, *src, *tgt) implies exists|k: int|
                0 <= k < r@.len() && (#[trigger] r@[k])@ == kv by {
                lemma_set_found(self.sets@, kv, *src, *tgt);
                let j = choose|j: int|
                    0 <= j < self.sets@.len() && (#[trigger] self.sets@[j]).0@ == kv
                        && self.sets@[j].1.has_edge(*src, *tgt);
                let k = choose|k: int| 0 <= k < r@.len() && #[trigger] js[k] == j;
                assert(r@[k]@ == kv);
            }
            assert forall|k1: int, k2: int|
                0 <= k1 < k2 < r@.len() implies (#[trigger] r@[k1])@ != (#[trigger] r@[k2])@ by {
                assert(js[k1] != js[k2]);
                assert(r@[k1]@ == self.sets@[js[k1]].0@ && r@[k2]@ == self.sets@[js[k2]].0@);
                if js[k1] < js[k2] {
                    assert(self.sets@[js[k1]].0@ != self.sets@[js[k2]].0@);
                } else {
                    assert(self.sets@[js[k2]].0@ != self.sets@[js[k1]].0@);
                }
            }
        }
        r
    }

    /// Position of the set recorded under a kind, if any.
    fn find_set(&self, edge_kind: &str) -> (r: Option<usize>)
        requires
            self.wf(),
        ensures
            match r {
                Some(i) => i < self.sets_view().len() && self.sets_view()[i as int].0@
                    == edge_kind@ && forall|a: usize, b: usize|
                    #[trigger] self.has_edge(edge_kind@, a, b) == self.sets_view()[i as int].1.has_edge(
                        a,
                        b,
                    ),
                None => forall|a: usize, b: usize| !self.has_edge(edge_kind@, a, b),
            },
    {
        let n = self.sets.len();
        let mut i: usize = 0;
        while i < n
            invariant
                0 <= i <= n,
                n == self.sets@.len(),
                self.wf(),
                forall|k: int| 0 <= k < i ==> (#[trigger] self.sets@[k]).0@ != edge_kind@,
            decreases n - i,
        {
            if str_eq(self.sets[i].0.as_str(), edge_kind) {
                proof {
                    assert forall|a: usize, b: usize| true implies #[trigger] self.has_edge(
                        edge_kind@,
                        a,
                        b,
                    ) == self.sets@[i as int].1.has_edge(a, b) by {
                        lemma_set_at(self.sets@, i as int, edge_kind@, a, b);
                    }
                }
                return Some(i);
            }
            i = i + 1;
        }
        proof {
            assert forall|a: usize, b: usize| true implies !self.has_edge(edge_kind@, a, b) by {
                lemma_set_absent(self.sets@, edge_kind@, a, b);
            }
        }
        None
    }
}

/// With distinct kinds, membership under a recorded kind comes from its
/// set.
proof fn lemma_set_at(s: Seq<(String, EdgeSet)>, i: int, k: Seq<char>, a: usize, b: usize)
    requires
        forall|p: int, q: int|
            0 <= p < q < s.len() ==> (#[trigger] s[p]).0@ != (#[trigger] s[q]).0@,
        0 <= i < s.len(),
        s[i].0@ == k,
    ensures
        spec_set_has(s, k, a, b) == s[i].1.has_edge(a, b),
    decreases s.len(),
{
    if i == s.len() - 1 {
    } else {
        assert(s.drop_last()[i] == s[i]);
        assert(forall|p: int, q: int|
            0 <= p < q < s.len() - 1 ==> s.drop_last()[p] == (#[trigger] s[p]) && s.drop_last()[q]
                == (#[trigger] s[q]));
        lemma_set_at(s.drop_last(), i, k, a, b);
    }
}

/// A kind absent from every set records no edge.
proof fn lemma_set_absent(s: Seq<(String, EdgeSet)>, k: Seq<char>, a: usize, b: usize)
    requires
        forall|i: int| 0 <= i < s.len() ==> (#[trigger] s[i]).0@ != k,
    ensures
        !spec_set_has(s, k, a, b),
    decreases s.len(),
{
    if s.len() > 0 {
        lemma_set_absent(s.drop_last(), k, a, b);
    }
}

/// A recorded edge points back to some set holding its kind.
proof fn lemma_set_found(s: Seq<(String, EdgeSet)>, k: Seq<char>, a: usize, b: usize)
    requires
        spec_set_has(s, k, a, b),
    ensures
        exists|j: int| 0 <= j < s.len() && (#[trigger] s[j]).0@ == k && s[j].1.has_edge(a, b),
    decreases s.len(),
{
    if s.len() > 0 {
        if s.last().0@ == k {
            assert(s[s.len() - 1].0@ == k && s[s.len() - 1].1.has_edge(a, b));
        } else {
            lemma_set_found(s.drop_last(), k, a, b);
            let j = choose|j: int|
                0 <= j < s.drop_last().len() && (#[trigger] s.drop_last()[j]).0@ == k
                    && s.drop_last()[j].1.has_edge(a, b);
            assert(s[j].0@ == k && s[j].1.has_edge(a, b));
        }
    }
}

/// Updating the set that holds a kind changes that kind's edges alone.
proof fn lemma_set_update(
    s: Seq<(String, EdgeSet)>,
    i: int,
    e: (String, EdgeSet),
    k: Seq<char>,
    a: usize,
    b: usize,
)
    requires
        forall|p: int, q: int|
            0 <= p < q < s.len() ==> (#[trigger] s[p]).0@ != (#[trigger] s[q]).0@,
        0 <= i < s.len(),
        s[i].0@ == e.0@,
    ensures
        spec_set_has(s.update(i, e), k, a, b) == if k == e.0@ {
            e.1.has_edge(a, b)
        } else {
            spec_set_has(s, k, a, b)
        },
    decreases s.len(),
{
    let t = s.update(i, e);
    if i == s.len() - 1 {
        assert(t.last() == e);
        assert(t.drop_last() =~= s.drop_last());
    } else {
        assert(t.last() == s.last());
        assert(t.drop_last() =~= s.drop_last().update(i, e));
        assert(forall|p: int, q: int|
            0 <= p < q < s.len() - 1 ==> s.drop_last()[p] == (#[trigger] s[p]) && s.drop_last()[q]
                == (#[trigger] s[q]));
        assert(s.drop_last()[i] == s[i]);
        lemma_set_update(s.drop_last(), i, e, k, a, b);
        if s.last().0@ == k {
            assert(k != e.0@);
        }
    }
}

/// A book of named facts: at most one value per `(fact name, node)` pair,
/// with a later write overwriting an earlier one.
pub struct FactBook {
    facts: Vec<(String, usize, String)>,
}

/// The value recorded for `(name, node)`, the latest write winning.
pub open spec fn spec_fact_get(
    s: Seq<(String, usize, String)>,
    name: Seq<char>,
    node: usize,
) -> Option<Seq<char>>
    decreases s.len(),
{
    if s.len() == 0 {
        None
    } else if s.last().0@ == name && s.last().1 == node {
        Some(s.last().2@)
    } else {
        spec_fact_get(s.drop_last(), name, node)
    }
}

impl FactBook {
    /// The recorded `(name, node, value)` writes, in order.
    pub closed spec fn facts_view(&self) -> Seq<(String, usize, String)> {
        self.facts@
    }

    /// The value recorded for `(name, node)`.
    pub open spec fn spec_get(&self, name: Seq<char>, node: usize) -> Option<Seq<char>> {
        spec_fact_get(self.facts_view(), name, node)
    }

    /// A fresh, empty book.
    pub fn new() -> (r: FactBook)
        ensures
            forall|name: Seq<char>, node: usize| r.spec_get(name, node) is None,
    {
        FactBook { facts: Vec::new() }
    }

    /// Records a value for `(name, node)`, overwriting any earlier one.
    pub fn insert(&mut self, node: usize, name: String, value: String)
        ensures
            final(self).spec_get(name@, node) == Some(value@),
            forall|n2: Seq<char>, d2: usize|
                !(n2 == name@ && d2 == node) ==> final(self).spec_get(n2, d2) == old(
                    self,
                ).spec_get(n2, d2),
    {
        self.facts.push((name, node, value));
        proof {
            assert(self.facts@.drop_last() =~= old(self).facts@);
        }
    }

    /// Records a value for `(name, node)`, overwriting any earlier one.
    pub fn add(&mut self, node: usize, name: String, value: String)
        ensures
            final(self).spec_get(name@, node) == Some(value@),
            forall|n2: Seq<char>, d2: usize|
                !(n2 == name@ && d2 == node) ==> final(self).spec_get(n2, d2) == old(
                    self,
                ).spec_get(n2, d2),
    {
        self.insert(node, name, value)
    }

    /// The value recorded for `(name, node)`, if any.
    pub fn get(&self, node: &usize, name: &str) -> (r: Option<&String>)
        ensures
            match r {
                Some(v) => self.spec_get(name@, *node) == Some(v@),
                None => self.spec_get(name@, *node) is None,
            },
    {
        let n = self.facts.len();
        let mut i: usize = n;
        proof {
            assert(self.facts@.subrange(0, n as int) =~= self.facts@);
        }
        while i > 0
            invariant
                0 <= i <= n,
                n == self.facts@.len(),
                spec_fact_get(self.facts@, name@, *node) == spec_fact_get(
                    self.facts@.subrange(0, i as int),
                    name@,
                    *node,
                ),
            decreases i,
        {
            proof {
                assert(self.facts@.subrange(0, i as int).last() == self.facts@[i - 1]);
                assert(self.facts@.subrange(0, i as int).drop_last() =~= self.facts@.subrange(
                    0,
                    i as int - 1,
                ));
            }
            let hit = str_eq(self.facts[i - 1].0.as_str(), name) && self.facts[i - 1].1 == *node;
            if hit {
                return Some(&self.facts[i - 1].2);
            }
            i = i - 1;
        }
        proof {
            assert(self.facts@.subrange(0, 0).len() == 0);
        }
        None
    }
}

} // verus!
