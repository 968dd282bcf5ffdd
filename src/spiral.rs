use vstd::prelude::*;

use crate::jitter::spread;

verus! {

/// Anchor candidates along one arm: candidate `c` sits at the angle
/// `(c + 1) * pi / 1000`, so the candidates cover one full turn.
pub const ANCHOR_CANDIDATES: usize = 2000;

/// The anchors kept from the first `count` candidates by the spacing filter.
/// A candidate is kept when it is usable and either nothing was kept before
/// it or it is far enough from the last kept one; a skipped candidate does
/// not become the reference for the next.
pub open spec fn spaced_selection(
    count: usize,
    usable: spec_fn(usize) -> bool,
    far: spec_fn(usize, usize) -> bool,
) -> Seq<usize>
    decreases count,
{
    if count == 0 {
        Seq::empty()
    } else {
        let before = spaced_selection((count - 1) as usize, usable, far);
        let c = (count - 1) as usize;
        if usable(c) && (before.len() == 0 || far(before.last(), c)) {
            before.push(c)
        } else {
            before
        }
    }
}

/// The closure `usable` answers like the predicate `p` on the first `count`
/// candidates.
#[verifier::opaque]
pub open spec fn answers_one<U: Fn(usize) -> bool>(
    usable: U,
    p: spec_fn(usize) -> bool,
    count: nat,
) -> bool {
    forall|k: usize, b: bool| k < count && usable.ensures((k,), b) ==> b == p(k)
}

/// The closure `far` answers like the predicate `p` on pairs of the first
/// `count` candidates.
#[verifier::opaque]
pub open spec fn answers_two<F: Fn(usize, usize) -> bool>(
    far: F,
    p: spec_fn(usize, usize) -> bool,
    count: nat,
) -> bool {
    forall|a: usize, k: usize, b: bool|
        a < count && k < count && far.ensures((a, k), b) ==> b == p(a, k)
}

/// Thins `count` candidates along an arm into evenly spaced anchors.
/// `usable(c)` says whether candidate `c` is defined at all; `far(a, c)`
/// whether candidate `c` is at least the sample spacing away from the kept
/// candidate `a`. The result lists the kept candidates in increasing order.
pub fn select_anchors<U: Fn(usize) -> bool, F: Fn(usize, usize) -> bool>(
    count: usize,
    usable: U,
    far: F,
) -> (r: Vec<usize>)
    requires
        forall|k: usize| k < count ==> #[trigger] usable.requires((k,)),
        forall|a: usize, k: usize| a < k < count ==> #[trigger] far.requires((a, k)),
    ensures
        r.len() <= count,
        forall|i: int| 0 <= i < r.len() ==> #[trigger] r@[i] < count,
        forall|i: int, j: int| 0 <= i < j < r.len() ==> r@[i] < r@[j],
        forall|i: int| 0 <= i < r.len() ==> usable.ensures((#[trigger] r@[i],), true),
        forall|i: int| 1 <= i < r.len() ==> #[trigger] far.ensures((r@[i - 1], r@[i]), true),
        forall|u: spec_fn(usize) -> bool, f: spec_fn(usize, usize) -> bool|
            #![trigger answers_one(usable, u, count as nat), answers_two(far, f, count as nat)]
            answers_one(usable, u, count as nat) && answers_two(far, f, count as nat) ==> r@
                == spaced_selection(count, u, f),
{
    let mut r: Vec<usize> = Vec::new();
    let mut k: usize = 0;
    while k < count
        invariant
            k <= count,
            r.len() <= k,
            forall|c: usize| c < count ==> #[trigger] usable.requires((c,)),
            forall|a: usize, c: usize| a < c < count ==> #[trigger] far.requires((a, c)),
            forall|i: int| 0 <= i < r.len() ==> #[trigger] r@[i] < k,
            forall|i: int, j: int| 0 <= i < j < r.len() ==> r@[i] < r@[j],
            forall|i: int| 0 <= i < r.len() ==> usable.ensures((#[trigger] r@[i],), true),
            forall|i: int|
                1 <= i < r.len() ==> #[trigger] far.ensures((r@[i - 1], r@[i]), true),
            forall|u: spec_fn(usize) -> bool, f: spec_fn(usize, usize) -> bool|
                #![trigger answers_one(usable, u, count as nat), answers_two(far, f, count as nat)]
                answers_one(usable, u, count as nat) && answers_two(far, f, count as nat) ==> r@
                    == spaced_selection(k, u, f),
        decreases count - k,
    {
        let ghost before = r@;
        let ok = usable(k);
        let mut keep = ok;
        if ok && r.len() > 0 {
            let last = r[r.len() - 1];
            assert(last < k);
            keep = far(last, k);
        }
        if keep {
            r.push(k);
        }
        proof {
            assert forall|u: spec_fn(usize) -> bool, f: spec_fn(usize, usize) -> bool|
                answers_one(usable, u, count as nat) && answers_two(
                    far,
                    f,
                    count as nat,
                ) implies r@ == spaced_selection((k + 1) as usize, u, f) by {
                reveal(answers_one);
                reveal(answers_two);
                assert(before == spaced_selection(k, u, f));
                assert(ok == u(k));
                if ok && before.len() > 0 {
                    assert(keep == f(before.last(), k));
                }
            }
        }
        k = k + 1;
    }
    r
}

/// Each anchor of a spaced selection is a usable candidate below `count`,
/// the anchors increase, and each anchor after the first is far enough from
/// the one kept before it.
pub proof fn spaced_selection_is_spaced(
    count: usize,
    usable: spec_fn(usize) -> bool,
    far: spec_fn(usize, usize) -> bool,
)
    ensures
        forall|i: int|
            0 <= i < spaced_selection(count, usable, far).len() ==> #[trigger] spaced_selection(
                count,
                usable,
                far,
            )[i] < count && usable(spaced_selection(count, usable, far)[i]),
        forall|i: int, j: int|
            0 <= i < j < spaced_selection(count, usable, far).len() ==> spaced_selection(
                count,
                usable,
                far,
            )[i] < spaced_selection(count, usable, far)[j],
        forall|i: int|
            1 <= i < spaced_selection(count, usable, far).len() ==> #[trigger] far(
                spaced_selection(count, usable, far)[i - 1],
                spaced_selection(count, usable, far)[i],
            ),
    decreases count,
{
    if count > 0 {
        let prev = spaced_selection((count - 1) as usize, usable, far);
        let s = spaced_selection(count, usable, far);
        spaced_selection_is_spaced((count - 1) as usize, usable, far);
        assert(s == prev || s == prev.push((count - 1) as usize));
        assert forall|i: int| 0 <= i < s.len() implies #[trigger] s[i] < count && usable(s[i]) by {
            if i < prev.len() {
                assert(s[i] == prev[i]);
            }
        }
        assert forall|i: int, j: int| 0 <= i < j < s.len() implies s[i] < s[j] by {
            assert(s[i] == prev[i]);
            if j < prev.len() {
                assert(s[j] == prev[j]);
            }
        }
        assert forall|i: int| 1 <= i < s.len() implies #[trigger] far(s[i - 1], s[i]) by {
            assert(s[i - 1] == prev[i - 1]);
            if i < prev.len() {
                assert(s[i] == prev[i]);
            }
        }
    }
}


/// Turning direction of the arms. The left-turning galaxy is the mirror image
/// of the right-turning one across the z axis: `x` changes sign, `z` stays.
#[derive(Clone, Copy, Debug, PartialEq, Eq, Structural)]
pub enum Rotation {
    Left,
    Right,
}

/// Sign applied to `r * cos(phi)` to obtain `x`.
pub open spec fn x_sign_of(rotation: Rotation) -> int {
    match rotation {
        Rotation::Left => -1,
        Rotation::Right => 1,
    }
}

impl Rotation {
    /// The rotation asked for by a "right turning" switch.
    pub fn from_right_turning(right_turning: bool) -> (r: Rotation)
        ensures
            r == (if right_turning {
                Rotation::Right
            } else {
                Rotation::Left
            }),
    {
        if right_turning {
            Rotation::Right
        } else {
            Rotation::Left
        }
    }

    /// Sign applied to `r * cos(phi)` to obtain `x`: `-1` turning left, `1`
    /// turning right.
    pub fn x_sign(&self) -> (s: i8)
        ensures
            s == x_sign_of(*self),
    {
        match self {
            Rotation::Left => -1,
            Rotation::Right => 1,
        }
    }
}

/// Mirroring across the z axis keeps every distance, so the spacing filter
/// answers alike for both rotations; the two rotations then keep the same
/// anchors, and only the sign of `x` tells them apart.
pub proof fn rotations_keep_the_same_anchors(
    count: usize,
    usable: spec_fn(usize) -> bool,
    far_left: spec_fn(usize, usize) -> bool,
    far_right: spec_fn(usize, usize) -> bool,
)
    requires
        forall|a: usize, k: usize| #[trigger] far_left(a, k) == far_right(a, k),
    ensures
        spaced_selection(count, usable, far_left) == spaced_selection(count, usable, far_right),
        x_sign_of(Rotation::Left) == -x_sign_of(Rotation::Right),
{
    assert(far_left =~= far_right);
}

/// The two generation strategies for spiral galaxies: the analytic two-arm
/// spiral with spacing-filtered anchors and uniform jitter, and the
/// three-arm logarithmic spiral with Gaussian jitter.
#[derive(Clone, Copy, Debug, PartialEq, Eq, Structural)]
pub enum SpiralStrategy {
    Analytic,
    ThreeArm,
}

/// Number of arms of each strategy.
pub open spec fn arm_count_of(strategy: SpiralStrategy) -> nat {
    match strategy {
        SpiralStrategy::Analytic => 2,
        SpiralStrategy::ThreeArm => 3,
    }
}

/// Number of jittered samples per anchor of each strategy.
pub open spec fn samples_per_anchor_of(strategy: SpiralStrategy) -> nat {
    match strategy {
        SpiralStrategy::Analytic => 10,
        SpiralStrategy::ThreeArm => 6,
    }
}

impl SpiralStrategy {
    /// Number of arms, evenly spaced around the centre.
    pub fn arm_count(&self) -> (n: usize)
        ensures
            n == arm_count_of(*self),
    {
        match self {
            SpiralStrategy::Analytic => 2,
            SpiralStrategy::ThreeArm => 3,
        }
    }

    /// Number of jittered samples drawn around each anchor.
    pub fn samples_per_anchor(&self) -> (n: usize)
        ensures
            n == samples_per_anchor_of(*self),
    {
        match self {
            SpiralStrategy::Analytic => 10,
            SpiralStrategy::ThreeArm => 6,
        }
    }
}

/// An anchor of a spiral: candidate `candidate` of the arm curve, on arm
/// `arm`. Arm `a` of `n` is the first arm turned by `a / n` of a full turn
/// about the centre.
#[derive(Clone, Copy, Debug, PartialEq, Eq, Structural)]
pub struct ArmSample {
    pub arm: usize,
    pub candidate: usize,
}

/// The anchors of all arms: the kept candidates on the first arm, then the
/// same candidates on the second arm, and so on.
pub open spec fn skeleton_seq(kept: Seq<usize>, arms: nat) -> Seq<ArmSample> {
    Seq::new(
        arms * kept.len(),
        |i: int| ArmSample { arm: (i / kept.len() as int) as usize, candidate: kept[i % kept.len() as int] },
    )
}

/// Lays the kept candidates out on `arms` arms, arm by arm.
pub fn arm_skeleton(kept: &Vec<usize>, arms: usize) -> (r: Vec<ArmSample>)
    ensures
        r@ == skeleton_seq(kept@, arms as nat),
        r.len() == arms * kept.len(),
{
    let n = kept.len();
    let mut r: Vec<ArmSample> = Vec::new();
    let mut a: usize = 0;
    while a < arms
        invariant
            n == kept.len(),
            a <= arms,
            r@ =~= skeleton_seq(kept@, a as nat),
        decreases arms - a,
    {
        let mut j: usize = 0;
        while j < n
            invariant
                n == kept.len(),
                j <= n,
                a < arms,
                r@ =~= skeleton_seq(kept@, a as nat).add(
                    Seq::new(j as nat, |i: int| ArmSample { arm: a, candidate: kept@[i] }),
                ),
            decreases n - j,
        {
            r.push(ArmSample { arm: a, candidate: kept[j] });
            j = j + 1;
        }
        proof {
            let next = skeleton_seq(kept@, (a + 1) as nat);
            assert((a + 1) * n == a * n + n) by (nonlinear_arith);
            assert forall|i: int| 0 <= i < next.len() implies #[trigger] next[i] == r@[i] by {
                if i < a * n {
                    assert(next[i] == skeleton_seq(kept@, a as nat)[i]);
                } else {
                    vstd::arithmetic::div_mod::lemma_fundamental_div_mod_converse(
                        i,
                        n as int,
                        a as int,
                        i - a * n,
                    );
                }
            }
            assert(r@ =~= next);
        }
        a = a + 1;
    }
    r
}

/// What a spiral galaxy is built from: its anchors, and for each sample the
/// index of the anchor it is drawn around.
pub struct SpiralPlan {
    pub anchors: Vec<ArmSample>,
    pub samples: Vec<usize>,
}

/// Plans a spiral galaxy from the candidates kept along the first arm: each
/// kept candidate becomes an anchor on every arm of the strategy, and each
/// anchor gets the strategy's number of jittered samples.
pub fn plan_spiral(strategy: SpiralStrategy, kept: &Vec<usize>) -> (p: SpiralPlan)
    ensures
        p.anchors@ == skeleton_seq(kept@, arm_count_of(strategy)),
        p.samples.len() == samples_per_anchor_of(strategy) * p.anchors.len(),
        forall|i: int|
            0 <= i < p.samples.len() ==> #[trigger] p.samples@[i] == i / samples_per_anchor_of(
                strategy,
            ) as int,
{
    let anchors = arm_skeleton(kept, strategy.arm_count());
    let per = strategy.samples_per_anchor();
    let samples = spread(anchors.len(), per);
    assert(anchors.len() * per == per * anchors.len()) by (nonlinear_arith);
    SpiralPlan { anchors, samples }
}

} // verus!
