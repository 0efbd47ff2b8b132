//! Grouping statistics over the typed edges: how often each group size
//! occurs, folded into the five reporting buckets of the edge-kind
//! summary table.

use vstd::prelude::*;

verus! {

/// Sum of the occurrence counts of the group sizes that `sel` picks.
pub open spec fn bucket_sum(s: Seq<(usize, usize)>, sel: spec_fn(usize) -> bool) -> nat
    decreases s.len(),
{
    if s.len() == 0 {
        0
    } else {
        bucket_sum(s.drop_last(), sel) + if sel(s.last().0) {
            s.last().1 as nat
        } else {
            0
        }
    }
}

/// How many groups of each size occurred, folded into the five buckets
/// of the summary table: exactly one, two, three, four, and five or
/// more.
#[derive(Debug, PartialEq, Eq, Structural)]
pub struct SizeBuckets {
    pub n_1: usize,
    pub n_2: usize,
    pub n_3: usize,
    pub n_4: usize,
    pub n_5_plus: usize,
}

/// Folds `(group size, occurrences)` pairs into the five buckets. Group
/// sizes are at least one, and each bucket's total must fit in a
/// machine word.
pub fn size_buckets(counts: &Vec<(usize, usize)>) -> (r: SizeBuckets)
    requires
        forall|i: int| 0 <= i < counts@.len() ==> (#[trigger] counts@[i]).0 >= 1,
        bucket_sum(counts@, |n: usize| n == 1) <= usize::MAX,
        bucket_sum(counts@, |n: usize| n == 2) <= usize::MAX,
        bucket_sum(counts@, |n: usize| n == 3) <= usize::MAX,
        bucket_sum(counts@, |n: usize| n == 4) <= usize::MAX,
        bucket_sum(counts@, |n: usize| n >= 5) <= usize::MAX,
    ensures
        r.n_1 == bucket_sum(counts@, |n: usize| n == 1),
        r.n_2 == bucket_sum(counts@, |n: usize| n == 2),
        r.n_3 == bucket_sum(counts@, |n: usize| n == 3),
        r.n_4 == bucket_sum(counts@, |n: usize| n == 4),
        r.n_5_plus == bucket_sum(counts@, |n: usize| n >= 5),
{
    let len = counts.len();
    let mut r = SizeBuckets { n_1: 0, n_2: 0, n_3: 0, n_4: 0, n_5_plus: 0 };
    let mut i: usize = 0;
    while i < len
        invariant
            0 <= i <= len,
            len == counts@.len(),
            forall|j: int| 0 <= j < counts@.len() ==> (#[trigger] counts@[j]).0 >= 1,
            bucket_sum(counts@, |n: usize| n == 1) <= usize::MAX,
            bucket_sum(counts@, |n: usize| n == 2) <= usize::MAX,
            bucket_sum(counts@, |n: usize| n == 3) <= usize::MAX,
            bucket_sum(counts@, |n: usize| n == 4) <= usize::MAX,
            bucket_sum(counts@, |n: usize| n >= 5) <= usize::MAX,
            r.n_1 == bucket_sum(counts@.subrange(0, i as int), |n: usize| n == 1),
            r.n_2 == bucket_sum(counts@.subrange(0, i as int), |n: usize| n == 2),
            r.n_3 == bucket_sum(counts@.subrange(0, i as int), |n: usize| n == 3),
            r.n_4 == bucket_sum(counts@.subrange(0, i as int), |n: usize| n == 4),
            r.n_5_plus == bucket_sum(counts@.subrange(0, i as int), |n: usize| n >= 5),
        decreases len - i,
    {
        proof {
            assert(counts@.subrange(0, i as int + 1).drop_last() =~= counts@.subrange(0, i as int));
            lemma_bucket_sum_prefix(counts@, i as int + 1, |n: usize| n == 1);
            lemma_bucket_sum_prefix(counts@, i as int + 1, |n: usize| n == 2);
            lemma_bucket_sum_prefix(counts@, i as int + 1, |n: usize| n == 3);
            lemma_bucket_sum_prefix(counts@, i as int + 1, |n: usize| n == 4);
            lemma_bucket_sum_prefix(counts@, i as int + 1, |n: usize| n >= 5);
        }
        let (size, count) = counts[i];
        if size == 1 {
            r.n_1 = r.n_1 + count;
        } else if size == 2 {
            r.n_2 = r.n_2 + count;
        } else if size == 3 {
            r.n_3 = r.n_3 + count;
        } else if size == 4 {
            r.n_4 = r.n_4 + count;
        } else {
            r.n_5_plus = r.n_5_plus + count;
        }
        i = i + 1;
    }
    proof {
        assert(counts@.subrange(0, len as int) =~= counts@);
    }
    r
}

/// A prefix of the pairs never sums past the whole sequence.
pub proof fn lemma_bucket_sum_prefix(s: Seq<(usize, usize)>, i: int, sel: spec_fn(usize) -> bool)
    requires
        0 <= i <= s.len(),
    ensures
        bucket_sum(s.subrange(0, i), sel) <= bucket_sum(s, sel),
    decreases s.len() - i,
{
    if i < s.len() {
        lemma_bucket_sum_prefix(s, i + 1, sel);
        assert(s.subrange(0, i + 1).drop_last() =~= s.subrange(0, i));
        assert(s.subrange(0, i + 1).last() == s[i]);
    } else {
        assert(s.subrange(0, i) =~= s);
    }
}

} // verus!
