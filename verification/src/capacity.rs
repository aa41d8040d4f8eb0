//! The capacity model: the literal-length accumulator plus every bound
//! argument's declared maximum rendered length give a compile-time upper
//! bound on the total output length. The model never looks at an actual
//! value, only at the declared maxima.

use vstd::prelude::*;

use crate::bounded::BoundedString;
use crate::bounded::StrView;
use crate::template::Arguments;
use crate::template::PieceView;
use crate::template::lit_sum;
use crate::template::str_views;

verus! {

/// Sum of the declared maximum lengths of the resolved argument values.
pub open spec fn max_sum(bs: Seq<StrView>) -> nat
    decreases bs.len(),
{
    if bs.len() == 0 {
        0
    } else {
        bs[0].cap + max_sum(bs.drop_first())
    }
}

pub proof fn lemma_max_sum_push(bs: Seq<StrView>, x: StrView)
    ensures
        max_sum(bs.push(x)) == max_sum(bs) + x.cap,
    decreases bs.len(),
{
    if bs.len() == 0 {
        reveal_with_fuel(max_sum, 2);
        assert(bs.push(x).drop_first() =~= Seq::<StrView>::empty());
        assert(bs.push(x)[0] == x);
    } else {
        assert(bs.push(x).drop_first() =~= bs.drop_first().push(x));
        assert(bs.push(x)[0] == bs[0]);
        lemma_max_sum_push(bs.drop_first(), x);
    }
}

pub proof fn lemma_max_sum_split(bs: Seq<StrView>, k: int)
    requires
        0 <= k <= bs.len(),
    ensures
        max_sum(bs) == max_sum(bs.take(k)) + max_sum(bs.skip(k)),
    decreases k,
{
    if k == 0 {
        assert(bs.take(0) =~= Seq::<StrView>::empty());
        assert(bs.skip(0) =~= bs);
    } else {
        assert(bs.take(k)[0] == bs[0]);
        assert(bs.take(k).drop_first() =~= bs.drop_first().take(k - 1));
        assert(bs.skip(k) =~= bs.drop_first().skip(k - 1));
        lemma_max_sum_split(bs.drop_first(), k - 1);
    }
}

/// The capacity bound: the exact literal total plus each binding's declared
/// maximum. An upper bound, not an exact figure.
pub open spec fn spec_bound(ps: Seq<PieceView>, bs: Seq<StrView>) -> nat {
    lit_sum(ps) + max_sum(bs)
}

/// The bound is monotonic in each argument's declared maximum: raising any
/// declared maximum never lowers the bound.
pub proof fn lemma_bound_monotonic(ps: Seq<PieceView>, bs1: Seq<StrView>, bs2: Seq<StrView>)
    requires
        bs1.len() == bs2.len(),
        forall|i: int| 0 <= i < bs1.len() ==> (#[trigger] bs1[i]).cap <= (#[trigger] bs2[i]).cap,
    ensures
        spec_bound(ps, bs1) <= spec_bound(ps, bs2),
    decreases bs1.len(),
{
    if bs1.len() == 0 {
    } else {
        assert forall|i: int| 0 <= i < bs1.drop_first().len() implies (#[trigger] bs1.drop_first()[i]).cap
            <= (#[trigger] bs2.drop_first()[i]).cap by {
            assert(bs1.drop_first()[i] == bs1[i + 1]);
            assert(bs2.drop_first()[i] == bs2[i + 1]);
        }
        lemma_bound_monotonic(ps, bs1.drop_first(), bs2.drop_first());
    }
}

/// Computes the capacity bound for a parsed template and its resolved
/// bindings. Returns `None` exactly when the bound does not fit in `usize`.
pub fn capacity_bound(args: &Arguments, binds: &Vec<BoundedString>) -> (r: Option<usize>)
    requires
        args.wf(),
    ensures
        r is Some <==> spec_bound(args@.pieces, str_views(binds@)) <= usize::MAX,
        r is Some ==> r->Some_0 as nat == spec_bound(args@.pieces, str_views(binds@)),
{
    let ghost bs = str_views(binds@);
    let mut acc: usize = args.str_base_len;
    let n = binds.len();
    let mut k: usize = 0;
    proof {
        assert(bs.take(0) =~= Seq::<StrView>::empty());
    }
    while k < n
        invariant
            k <= n,
            n == binds@.len(),
            bs == str_views(binds@),
            acc as nat == lit_sum(args@.pieces) + max_sum(bs.take(k as int)),
        decreases n - k,
    {
        proof {
            lemma_max_sum_split(bs, k as int);
            assert(bs.skip(k as int)[0] == bs[k as int]);
            assert(bs.take(k as int + 1) =~= bs.take(k as int).push(bs[k as int]));
            lemma_max_sum_push(bs.take(k as int), bs[k as int]);
        }
        let c = binds[k].capacity();
        if c > usize::MAX - acc {
            proof {
                assert(max_sum(bs.skip(k as int)) >= bs[k as int].cap);
                assert(spec_bound(args@.pieces, bs) > usize::MAX);
            }
            return None;
        }
        acc = acc + c;
        k += 1;
    }
    proof {
        assert(bs.take(n as int) =~= bs);
    }
    Some(acc)
}

} // verus!
