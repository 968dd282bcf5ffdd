use vstd::prelude::*;

verus! {

/// `n` is the nearest integer to the cube root of `g`: the cube root lies in
/// `[n - 1/2, n + 1/2)`, scaled by two to stay in integers. No tie can occur,
/// since `8 * g` is even and `(2 * n + 1)^3` is odd.
pub open spec fn rounds_cube_root(g: int, n: int) -> bool {
    &&& 0 <= n
    &&& (2 * n - 1) * (2 * n - 1) * (2 * n - 1) <= 8 * g
    &&& 8 * g < (2 * n + 1) * (2 * n + 1) * (2 * n + 1)
}

/// The per-axis count for `g` requested lattice points.
pub open spec fn rounded_cube_root(g: int) -> int {
    choose|n: int| rounds_cube_root(g, n)
}

proof fn lemma_cube_monotonic(a: int, b: int)
    requires
        a <= b,
    ensures
        a * a * a <= b * b * b,
{
    assert(a * a * a <= b * b * b) by (nonlinear_arith)
        requires
            a <= b,
    ;
}

/// Only one count rounds a given cube root, so any `n` that does is the one.
pub proof fn lemma_rounded_cube_root_unique(g: int, n: int)
    requires
        rounds_cube_root(g, n),
    ensures
        rounded_cube_root(g) == n,
{
    let m = rounded_cube_root(g);
    assert(rounds_cube_root(g, m));
    if m < n {
        lemma_cube_monotonic(2 * m + 1, 2 * n - 1);
    } else if n < m {
        lemma_cube_monotonic(2 * n + 1, 2 * m - 1);
    }
}

proof fn lemma_cube_bound(m: int)
    requires
        m * m * m <= 0x8_0000_0000_0000_0000,
    ensures
        m < 0x80_0000,
{
    if m >= 0x80_0000 {
        assert(m * m * m >= 0x80_0000 * 0x80_0000 * 0x80_0000) by (nonlinear_arith)
            requires
                m >= 0x80_0000,
        ;
    }
}

/// The number of lattice points along each axis for a requested total:
/// the cube root of `grid_points`, rounded to the nearest integer.
pub fn per_axis_count(grid_points: usize) -> (n: usize)
    ensures
        rounds_cube_root(grid_points as int, n as int),
        n == rounded_cube_root(grid_points as int),
{
    let target: u128 = 8 * grid_points as u128;
    let mut n: u128 = 0;
    assert((2 * 0 - 1) * (2 * 0 - 1) * (2 * 0 - 1) == -1int) by (nonlinear_arith);
    loop
        invariant
            target == 8 * grid_points,
            n <= 0x40_0000,
            (2 * n - 1) * (2 * n - 1) * (2 * n - 1) <= target,
        decreases 0x40_0000 - n,
    {
        let m: u128 = 2 * n + 1;
        assert(m * m <= 0x80_0001 * 0x80_0001 && m * m * m <= 0x80_0001 * 0x80_0001
            * 0x80_0001) by (nonlinear_arith)
            requires
                m <= 0x80_0001,
        ;
        let cube: u128 = m * m * m;
        if cube > target {
            proof {
                lemma_rounded_cube_root_unique(grid_points as int, n as int);
            }
            return n as usize;
        }
        proof {
            lemma_cube_bound(m as int);
        }
        n = n + 1;
    }
}


/// A corner of a lattice cell. Each axis is counted in half steps from the
/// origin, so on a lattice of `n` points per axis over a cube of side `size`
/// the world coordinate is `offset * size / (2 * n)`.
#[derive(Clone, Copy, Debug, PartialEq, Eq, Structural)]
pub struct Corner {
    pub x: i64,
    pub y: i64,
    pub z: i64,
}

/// Offset, in half steps, of the `i`-th of `n` lattice positions on an axis:
/// position `i` lies at `-size / 2 + i * size / n`.
pub open spec fn axis_offset(n: int, i: int) -> int {
    2 * i - n
}

/// The `idx`-th corner of the lattice in its iteration order: `x` varies
/// slowest and `z` fastest.
pub open spec fn corner_at(n: int, idx: int) -> Corner {
    Corner {
        x: axis_offset(n, idx / (n * n)) as i64,
        y: axis_offset(n, (idx / n) % n) as i64,
        z: axis_offset(n, idx % n) as i64,
    }
}

/// Every corner of a lattice with `n` points per axis, in iteration order.
pub open spec fn lattice_seq(n: int) -> Seq<Corner> {
    Seq::new((n * n * n) as nat, |idx: int| corner_at(n, idx))
}

/// The corner lies in the half-open cube `[-size / 2, size / 2)` on every axis.
pub open spec fn within_cube(n: int, c: Corner) -> bool {
    &&& -n <= c.x < n
    &&& -n <= c.y < n
    &&& -n <= c.z < n
}

/// Squared distance of the corner from the origin, in squared half steps.
pub open spec fn squared_radius_of(c: Corner) -> int {
    c.x * c.x + c.y * c.y + c.z * c.z
}

/// The corner lies strictly closer to the origin than `size / 2`, which is
/// `n` half steps.
pub open spec fn within_sphere(n: int, c: Corner) -> bool {
    squared_radius_of(c) < n * n
}

/// The lattice corners that lie strictly inside the sphere of diameter
/// `size`, in iteration order.
pub open spec fn sphere_seq(n: int) -> Seq<Corner> {
    lattice_seq(n).filter(|c: Corner| within_sphere(n, c))
}

proof fn lemma_corner_in_range(n: int, idx: int)
    requires
        0 < n,
        0 <= idx < n * n * n,
    ensures
        0 <= idx / (n * n) < n,
        0 <= (idx / n) % n < n,
        0 <= idx % n < n,
        within_cube(n, corner_at(n, idx)),
{
    let nn = n * n;
    assert(nn > 0) by (nonlinear_arith)
        requires
            n > 0,
            nn == n * n,
    ;
    assert(n * n * n == nn * n) by (nonlinear_arith)
        requires
            nn == n * n,
    ;
    vstd::arithmetic::div_mod::lemma_fundamental_div_mod(idx, nn);
    vstd::arithmetic::div_mod::lemma_mod_pos_bound(idx, nn);
    vstd::arithmetic::div_mod::lemma_div_pos_is_pos(idx, nn);
    let q = idx / nn;
    assert(q < n) by (nonlinear_arith)
        requires
            idx == nn * q + idx % nn,
            0 <= idx % nn,
            idx < nn * n,
            nn > 0,
    ;
    vstd::arithmetic::div_mod::lemma_div_pos_is_pos(idx, n);
    vstd::arithmetic::div_mod::lemma_mod_pos_bound(idx / n, n);
    vstd::arithmetic::div_mod::lemma_mod_pos_bound(idx, n);
}

/// Every corner of the lattice with `per_axis` points along each axis, with
/// `x` varying slowest and `z` fastest.
pub fn lattice_corners(per_axis: usize) -> (r: Vec<Corner>)
    requires
        per_axis * per_axis * per_axis <= usize::MAX,
    ensures
        r@ == lattice_seq(per_axis as int),
        forall|i: int| 0 <= i < r.len() ==> within_cube(per_axis as int, #[trigger] r@[i]),
{
    let n = per_axis;
    let mut r: Vec<Corner> = Vec::new();
    if n == 0 {
        assert(r@ =~= lattice_seq(0));
        return r;
    }
    proof {
        lemma_cube_bound(n as int);
        assert(n * n <= n * n * n) by (nonlinear_arith)
            requires
                n > 0,
        ;
    }
    let nn: usize = n * n;
    let total: usize = nn * n;
    let mut idx: usize = 0;
    while idx < total
        invariant
            0 < n < 0x80_0000,
            nn == n * n,
            total == n * n * n,
            idx <= total,
            r@ =~= lattice_seq(n as int).take(idx as int),
            forall|i: int| 0 <= i < r.len() ==> within_cube(n as int, #[trigger] r@[i]),
        decreases total - idx,
    {
        proof {
            lemma_corner_in_range(n as int, idx as int);
        }
        let i: usize = idx / nn;
        let j: usize = (idx / n) % n;
        let k: usize = idx % n;
        let c = Corner {
            x: 2 * (i as i64) - n as i64,
            y: 2 * (j as i64) - n as i64,
            z: 2 * (k as i64) - n as i64,
        };
        r.push(c);
        idx = idx + 1;
    }
    assert(lattice_seq(n as int).take(idx as int) =~= lattice_seq(n as int));
    r
}


/// The lattice of `cube(grid_points, size)`: `round(grid_points^(1/3))` points
/// per axis, `x` varying slowest and `z` fastest, each corner inside the
/// half-open cube of side `size` centred on the origin.
pub fn cube_corners(grid_points: usize) -> (r: Vec<Corner>)
    requires
        rounded_cube_root(grid_points as int) * rounded_cube_root(grid_points as int)
            * rounded_cube_root(grid_points as int) <= usize::MAX,
    ensures
        r@ == lattice_seq(rounded_cube_root(grid_points as int)),
        r.len() == rounded_cube_root(grid_points as int) * rounded_cube_root(grid_points as int)
            * rounded_cube_root(grid_points as int),
        forall|i: int|
            0 <= i < r.len() ==> within_cube(
                rounded_cube_root(grid_points as int),
                #[trigger] r@[i],
            ),
{
    let n = per_axis_count(grid_points);
    lattice_corners(n)
}

/// Two lattices built from the same request are the same sequence of corners.
pub proof fn cube_is_deterministic(grid_points: usize, a: Seq<Corner>, b: Seq<Corner>)
    requires
        a == lattice_seq(rounded_cube_root(grid_points as int)),
        b == lattice_seq(rounded_cube_root(grid_points as int)),
    ensures
        a == b,
{
}

/// Squared distance of a corner from the origin, in squared half steps.
pub fn squared_radius(c: &Corner) -> (r: u128)
    ensures
        r == squared_radius_of(*c),
{
    let x = c.x as i128;
    let y = c.y as i128;
    let z = c.z as i128;
    proof {
        assert(0 <= x * x <= 0x4000_0000_0000_0000_0000_0000_0000_0000) by (nonlinear_arith)
            requires
                -0x8000_0000_0000_0000 <= x <= 0x8000_0000_0000_0000,
        ;
        assert(0 <= y * y <= 0x4000_0000_0000_0000_0000_0000_0000_0000) by (nonlinear_arith)
            requires
                -0x8000_0000_0000_0000 <= y <= 0x8000_0000_0000_0000,
        ;
        assert(0 <= z * z <= 0x4000_0000_0000_0000_0000_0000_0000_0000) by (nonlinear_arith)
            requires
                -0x8000_0000_0000_0000 <= z <= 0x8000_0000_0000_0000,
        ;
    }
    (x * x) as u128 + (y * y) as u128 + (z * z) as u128
}

/// Whether the corner lies strictly inside the sphere of diameter `size`
/// centred on the origin, on a lattice of `per_axis` points per axis.
pub fn inside_sphere(c: &Corner, per_axis: usize) -> (r: bool)
    ensures
        r == within_sphere(per_axis as int, *c),
{
    let n = per_axis as u128;
    proof {
        assert(n * n <= 0xffff_ffff_ffff_ffff * 0xffff_ffff_ffff_ffff) by (nonlinear_arith)
            requires
                n <= 0xffff_ffff_ffff_ffff,
        ;
    }
    squared_radius(c) < n * n
}

/// The lattice corners of `cluster(grid_points, size)`: those of
/// `cube(grid_points, size)` that lie strictly inside the sphere of diameter
/// `size`, in lattice order.
pub fn sphere_corners(grid_points: usize) -> (r: Vec<Corner>)
    requires
        rounded_cube_root(grid_points as int) * rounded_cube_root(grid_points as int)
            * rounded_cube_root(grid_points as int) <= usize::MAX,
    ensures
        r@ == sphere_seq(rounded_cube_root(grid_points as int)),
        forall|i: int|
            0 <= i < r.len() ==> within_sphere(
                rounded_cube_root(grid_points as int),
                #[trigger] r@[i],
            ),
{
    let n = per_axis_count(grid_points);
    let all = lattice_corners(n);
    let ghost pred = |c: Corner| within_sphere(n as int, c);
    let mut r: Vec<Corner> = Vec::new();
    let mut idx: usize = 0;
    while idx < all.len()
        invariant
            all@ == lattice_seq(n as int),
            pred == (|c: Corner| within_sphere(n as int, c)),
            idx <= all.len(),
            r@ == all@.take(idx as int).filter(pred),
            forall|i: int| 0 <= i < r.len() ==> within_sphere(n as int, #[trigger] r@[i]),
        decreases all.len() - idx,
    {
        let c = all[idx];
        let ghost prefix = all@.take(idx + 1);
        proof {
            assert(prefix.drop_last() =~= all@.take(idx as int));
            assert(prefix.last() == c);
            reveal(Seq::filter);
            assert(prefix.filter(pred) == if pred(c) {
                all@.take(idx as int).filter(pred).push(c)
            } else {
                all@.take(idx as int).filter(pred)
            });
        }
        let inside = inside_sphere(&c, n);
        if inside {
            r.push(c);
        }
        assert(r@ == prefix.filter(pred));
        idx = idx + 1;
    }
    assert(all@.take(idx as int) =~= all@);
    r
}

} // verus!
