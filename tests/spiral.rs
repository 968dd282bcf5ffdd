use std::f32::consts::PI;

use galaxy_math::jitter::expand;
use galaxy_math::lattice::{per_axis_count, sphere_corners, squared_radius};
use galaxy_math::spiral::{
    arm_skeleton, plan_spiral, select_anchors, ArmSample, Rotation, SpiralStrategy,
    ANCHOR_CANDIDATES,
};
use rand::rngs::StdRng;
use rand::SeedableRng;
use rand_distr::{Distribution, Uniform};

fn candidate_points(size: f32, rotation: Rotation) -> Vec<Option<(f32, f32)>> {
    let a = size / 2.0;
    (0..ANCHOR_CANDIDATES)
        .map(|c| {
            let phi = (c + 1) as f32 * 0.001 * PI;
            let inner = 0.63 * (phi / 8.0).tan();
            if inner <= 0.0 {
                return None;
            }
            let r = a / inner.ln();
            if !r.is_finite() {
                return None;
            }
            Some((rotation.x_sign() as f32 * r * phi.cos(), r * phi.sin()))
        })
        .collect()
}

fn distance(p: (f32, f32), q: (f32, f32)) -> f32 {
    ((p.0 - q.0).powi(2) + (p.1 - q.1).powi(2)).sqrt()
}

fn kept(spacing: f32, size: f32, rotation: Rotation) -> (Vec<usize>, Vec<Option<(f32, f32)>>) {
    let points = candidate_points(size, rotation);
    let kept = select_anchors(
        ANCHOR_CANDIDATES,
        |k| points[k].is_some(),
        |a, k| !(distance(points[a].unwrap(), points[k].unwrap()) < spacing),
    );
    (kept, points)
}

#[test]
fn select_anchors_keeps_first_usable_and_skips_close_ones() {
    let positions = [0i32, 1, 5, 6, 7, 20];
    let usable = [false, true, true, true, true, true];
    let r = select_anchors(6, |k| usable[k], |a, k| positions[k] - positions[a] >= 4);
    assert_eq!(r, vec![1, 2, 5]);
    let none = select_anchors(3, |_| false, |_, _| true);
    assert!(none.is_empty());
    let all = select_anchors(4, |_| true, |_, _| true);
    assert_eq!(all, vec![0, 1, 2, 3]);
}

#[test]
fn skipped_candidates_do_not_become_the_reference() {
    // Candidate 2 is near 1 and skipped; 3 is compared with 1, not with 2.
    let positions = [0i32, 3, 5, 6];
    let r = select_anchors(4, |_| true, |a, k| positions[k] - positions[a] >= 3);
    assert_eq!(r, vec![0, 1, 3]);
}

#[test]
fn first_arm_is_bounded_and_spaced() {
    let (kept, points) = kept(1000.0, 50000.0, Rotation::Left);
    assert!(!kept.is_empty());
    assert!(kept.len() <= 2000);
    for w in kept.windows(2) {
        assert!(w[0] < w[1]);
        assert!(distance(points[w[0]].unwrap(), points[w[1]].unwrap()) >= 1000.0);
    }
}

#[test]
fn larger_spacing_keeps_fewer_anchors() {
    let counts: Vec<usize> = [250.0f32, 500.0, 1000.0, 2000.0, 4000.0]
        .iter()
        .map(|d| kept(*d, 50000.0, Rotation::Left).0.len())
        .collect();
    for w in counts.windows(2) {
        assert!(w[0] >= w[1]);
    }
}

#[test]
fn rotations_mirror_each_other() {
    let (left, left_points) = kept(1000.0, 50000.0, Rotation::Left);
    let (right, right_points) = kept(1000.0, 50000.0, Rotation::Right);
    assert_eq!(left, right);
    for k in left {
        let (lx, lz) = left_points[k].unwrap();
        let (rx, rz) = right_points[k].unwrap();
        assert_eq!(lx, -rx);
        assert_eq!(lz, rz);
    }
    assert_eq!(Rotation::Left.x_sign(), -1);
    assert_eq!(Rotation::Right.x_sign(), 1);
    assert_eq!(Rotation::from_right_turning(true), Rotation::Right);
    assert_eq!(Rotation::from_right_turning(false), Rotation::Left);
}

#[test]
fn skeleton_lists_arm_by_arm() {
    let r = arm_skeleton(&vec![4, 9], 3);
    let expected = vec![
        ArmSample { arm: 0, candidate: 4 },
        ArmSample { arm: 0, candidate: 9 },
        ArmSample { arm: 1, candidate: 4 },
        ArmSample { arm: 1, candidate: 9 },
        ArmSample { arm: 2, candidate: 4 },
        ArmSample { arm: 2, candidate: 9 },
    ];
    assert_eq!(r, expected);
    assert!(arm_skeleton(&vec![], 2).is_empty());
    assert!(arm_skeleton(&vec![1, 2], 0).is_empty());
}

#[test]
fn spiral_has_ten_samples_per_anchor() {
    let (kept, _) = kept(1000.0, 50000.0, Rotation::Right);
    let plan = plan_spiral(SpiralStrategy::Analytic, &kept);
    assert_eq!(plan.anchors.len(), 2 * kept.len());
    assert_eq!(plan.samples.len(), 10 * plan.anchors.len());
    for (i, a) in plan.samples.iter().enumerate() {
        assert_eq!(*a, i / 10);
    }
}

#[test]
fn three_arm_strategy_has_six_samples_per_anchor() {
    assert_eq!(SpiralStrategy::ThreeArm.arm_count(), 3);
    assert_eq!(SpiralStrategy::ThreeArm.samples_per_anchor(), 6);
    assert_eq!(SpiralStrategy::Analytic.arm_count(), 2);
    assert_eq!(SpiralStrategy::Analytic.samples_per_anchor(), 10);
    let kept: Vec<usize> = (0..5).collect();
    let plan = plan_spiral(SpiralStrategy::ThreeArm, &kept);
    assert_eq!(plan.anchors.len(), 15);
    assert_eq!(plan.samples.len(), 90);
    assert_eq!(plan.anchors[5], ArmSample { arm: 1, candidate: 0 });
}

fn density_sample_count(distance: f32, size: f32) -> usize {
    let sigma = size / 9.0;
    (20.0 * (-(distance * distance / (2.0 * sigma * sigma))).exp()).ceil() as usize
}

fn cluster_points(grid_points: usize, size: f32, seed: u64) -> Vec<[f32; 3]> {
    let n = per_axis_count(grid_points);
    let step = size / n as f32;
    let half_step = step / 2.0;
    let corners = sphere_corners(grid_points);
    let counts: Vec<usize> = corners
        .iter()
        .map(|c| density_sample_count((squared_radius(c) as f32).sqrt() * half_step, size))
        .collect();
    let mut rng = StdRng::seed_from_u64(seed);
    let jitter = Uniform::new_inclusive(0.0f32, step);
    expand(&counts)
        .into_iter()
        .map(|a| {
            let c = corners[a];
            [
                c.x as f32 * half_step + jitter.sample(&mut rng),
                c.y as f32 * half_step + jitter.sample(&mut rng),
                c.z as f32 * half_step + jitter.sample(&mut rng),
            ]
        })
        .collect()
}

#[test]
fn seeded_cluster_is_bounded_and_stable() {
    let first = cluster_points(1000, 500.0, 7);
    let second = cluster_points(1000, 500.0, 11);
    assert!(!first.is_empty());
    assert_eq!(first.len(), second.len());
    let step = 50.0f32;
    let bound = 250.0 + step * 3.0f32.sqrt();
    for p in &first {
        assert!((p[0] * p[0] + p[1] * p[1] + p[2] * p[2]).sqrt() <= bound);
    }
    assert_eq!(cluster_points(1000, 500.0, 7), first);
}

#[test]
fn density_count_decays_with_distance() {
    assert_eq!(density_sample_count(0.0, 500.0), 20);
    let counts: Vec<usize> = (0..=25).map(|i| density_sample_count(i as f32 * 10.0, 500.0)).collect();
    for w in counts.windows(2) {
        assert!(w[0] >= w[1]);
    }
    assert!(counts[25] >= 1);
}
