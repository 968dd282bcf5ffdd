use vstd::prelude::*;

verus! {

/// The number of samples drawn when anchor `a` gets `counts[a]` of them.
pub open spec fn total(counts: Seq<usize>) -> nat
    decreases counts.len(),
{
    if counts.len() == 0 {
        0
    } else {
        total(counts.drop_last()) + counts.last() as nat
    }
}

/// For each sample, the index of the anchor it is drawn around: all samples
/// of anchor 0 first, then those of anchor 1, and so on.
pub open spec fn sample_anchors(counts: Seq<usize>) -> Seq<usize>
    decreases counts.len(),
{
    if counts.len() == 0 {
        Seq::empty()
    } else {
        sample_anchors(counts.drop_last()) + Seq::new(
            counts.last() as nat,
            |i: int| (counts.len() - 1) as usize,
        )
    }
}

/// The number of samples is the sum of the per-anchor counts.
pub proof fn lemma_sample_count(counts: Seq<usize>)
    ensures
        sample_anchors(counts).len() == total(counts),
    decreases counts.len(),
{
    if counts.len() > 0 {
        lemma_sample_count(counts.drop_last());
    }
}

/// Plans the expansion of anchors into jittered samples: anchor `a` gets
/// `counts[a]` samples, and the result names, sample by sample, the anchor
/// each one is drawn around.
pub fn expand(counts: &Vec<usize>) -> (r: Vec<usize>)
    ensures
        r@ == sample_anchors(counts@),
        r.len() == total(counts@),
{
    let mut r: Vec<usize> = Vec::new();
    let mut a: usize = 0;
    while a < counts.len()
        invariant
            a <= counts.len(),
            r@ == sample_anchors(counts@.take(a as int)),
        decreases counts.len() - a,
    {
        let k = counts[a];
        let ghost before = r@;
        let mut j: usize = 0;
        while j < k
            invariant
                j <= k,
                a < counts.len(),
                r@ =~= before + Seq::new(j as nat, |i: int| a),
            decreases k - j,
        {
            r.push(a);
            j = j + 1;
        }
        proof {
            let next = counts@.take(a + 1);
            assert(next.drop_last() =~= counts@.take(a as int));
            assert(next.last() == k);
            assert(r@ =~= sample_anchors(next));
        }
        a = a + 1;
    }
    assert(counts@.take(a as int) =~= counts@);
    proof {
        lemma_sample_count(counts@);
    }
    r
}

/// Plans `per_anchor` samples around each of `anchor_count` anchors, in
/// anchor order: sample `i` is drawn around anchor `i / per_anchor`.
pub fn spread(anchor_count: usize, per_anchor: usize) -> (r: Vec<usize>)
    ensures
        r.len() == anchor_count * per_anchor,
        forall|i: int| 0 <= i < r.len() ==> #[trigger] r@[i] == i / per_anchor as int,
{
    let mut r: Vec<usize> = Vec::new();
    let mut a: usize = 0;
    while a < anchor_count
        invariant
            a <= anchor_count,
            r.len() == a * per_anchor,
            forall|i: int| 0 <= i < r.len() ==> #[trigger] r@[i] == i / per_anchor as int,
        decreases anchor_count - a,
    {
        let mut j: usize = 0;
        while j < per_anchor
            invariant
                j <= per_anchor,
                a < anchor_count,
                r.len() == a * per_anchor + j,
                forall|i: int| 0 <= i < r.len() ==> #[trigger] r@[i] == i / per_anchor as int,
            decreases per_anchor - j,
        {
            proof {
                vstd::arithmetic::div_mod::lemma_fundamental_div_mod_converse(
                    a * per_anchor + j,
                    per_anchor as int,
                    a as int,
                    j as int,
                );
            }
            r.push(a);
            j = j + 1;
        }
        assert((a + 1) * per_anchor == a * per_anchor + per_anchor) by (nonlinear_arith);
        a = a + 1;
    }
    r
}

} // verus!
