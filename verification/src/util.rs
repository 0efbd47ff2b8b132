//! Small general helpers.

use vstd::prelude::*;

verus! {

/// The first present value of a sequence of optional values.
pub open spec fn spec_collapse<T>(s: Seq<Option<T>>) -> Option<T>
    decreases s.len(),
{
    if s.len() == 0 {
        None
    } else if s[0] is Some {
        s[0]
    } else {
        spec_collapse(s.drop_first())
    }
}

/// Collapses a list of optional values to its first present value.
pub fn collapse<T>(opts: Vec<Option<T>>) -> (r: Option<T>)
    ensures
        r == spec_collapse(opts@),
{
    let n = opts.len();
    let mut i: usize = 0;
    proof {
        assert(opts@.skip(0) =~= opts@);
    }
    while i < n
        invariant
            0 <= i <= n,
            n == opts@.len(),
            spec_collapse(opts@) == spec_collapse(opts@.skip(i as int)),
            forall|j: int| 0 <= j < i ==> (#[trigger] opts@[j]) is None,
        decreases n - i,
    {
        proof {
            assert(opts@.skip(i as int)[0] == opts@[i as int]);
            assert(opts@.skip(i as int).drop_first() =~= opts@.skip(i as int + 1));
        }
        let found = opts[i].is_some();
        if found {
            let mut o = opts;
            let got = o.remove(i);
            return got;
        }
        i = i + 1;
    }
    proof {
        assert(opts@.skip(n as int).len() == 0);
    }
    None
}

} // verus!
