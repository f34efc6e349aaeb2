use mandelbrot_zoom::kernel::mandelbrot;
use mandelbrot_zoom::lanes::{mandelbrot_simd, LANES};
use std::cell::Cell;

type Point = (f32, f32);

fn next_value(z: Point, cx: f32, cy: f32) -> Point {
    (z.0 * z.0 - z.1 * z.1 + cx, 2.0 * z.0 * z.1 + cy)
}

/// Iterates four points in single precision. Returns the counts and the
/// number of times a lane moved on.
fn iterate_group(cx: [f32; LANES], cy: [f32; LANES], max_iter: u32) -> ([usize; LANES], u32) {
    let moves = Cell::new(0u32);
    let iters = mandelbrot_simd(
        (0.0f32, 0.0f32),
        max_iter,
        |_lane: usize, z: Point| z.0 * z.0 + z.1 * z.1 < 4.0,
        |lane: usize, z: Point| {
            moves.set(moves.get() + 1);
            next_value(z, cx[lane], cy[lane])
        },
    );
    (iters, moves.get())
}

/// The whole iteration count of one point from the scalar kernel, without
/// membership tests, where a value is outside the escape radius exactly if a
/// lane would not find it within.
fn iterate_scalar(cx: f32, cy: f32, max_iter: u32, periodicity: bool) -> u32 {
    mandelbrot(
        (0.0f32, 0.0f32),
        max_iter,
        periodicity,
        false,
        false,
        |z: Point| !(z.0 * z.0 + z.1 * z.1 < 4.0),
        |z: Point| next_value(z, cx, cy),
        |a: Point, b: Point| a == b,
    )
    .iterations(max_iter)
}

#[test]
fn group_has_four_lanes() {
    assert_eq!(LANES, 4);
}

#[test]
fn group_without_budget_counts_nothing() {
    let (counts, moves) = iterate_group([0.0, 2.0, -1.0, 0.3], [0.0, 2.0, 0.0, 0.5], 0);
    assert_eq!(counts, [0, 0, 0, 0]);
    assert_eq!(moves, 0);
}

#[test]
fn lane_counts_the_rounds_it_stays_within_the_radius() {
    let iters = mandelbrot_simd(
        0u32,
        10,
        |lane: usize, z: u32| z < [3, 0, 7, 10][lane],
        |_lane: usize, z: u32| z + 1,
    );
    assert_eq!(iters, [3, 0, 7, 10]);
}

#[test]
fn frozen_lane_stays_frozen() {
    let asked = std::cell::RefCell::new(Vec::new());
    let iters = mandelbrot_simd(
        0u32,
        10,
        |lane: usize, z: u32| {
            asked.borrow_mut().push((lane, z));
            lane != 1 || z != 2
        },
        |_lane: usize, z: u32| z + 1,
    );
    assert_eq!(iters, [10, 2, 10, 10]);
    let asked_of_lane_one = asked.into_inner().into_iter().filter(|&(lane, _)| lane == 1).count();
    assert_eq!(asked_of_lane_one, 3);
}

#[test]
fn group_stops_when_every_lane_is_frozen() {
    let rounds = Cell::new(0u32);
    let iters = mandelbrot_simd(
        0u32,
        500,
        |lane: usize, z: u32| {
            if lane == 0 {
                rounds.set(rounds.get() + 1);
            }
            z < [1, 4, 2, 3][lane]
        },
        |_lane: usize, z: u32| z + 1,
    );
    assert_eq!(iters, [1, 4, 2, 3]);
    assert_eq!(rounds.get(), 2);
}

#[test]
fn group_stops_when_the_budget_is_used_up() {
    let (counts, moves) = iterate_group([0.0; LANES], [0.0; LANES], 3);
    assert_eq!(counts, [3, 3, 3, 3]);
    assert_eq!(moves, 12);
}

#[test]
fn group_of_known_points() {
    let (counts, _) = iterate_group([-2.0, -1.0, 0.0, 1.0], [0.0, 0.0, 0.0, 0.0], 50);
    assert_eq!(counts, [1, 50, 50, 2]);
}

#[test]
fn group_of_escaping_points_ends_early() {
    let (counts, moves) = iterate_group([10.0, 1.0, 2.0, 0.5], [0.0, 1.0, 2.0, 0.5], 500);
    assert_eq!(counts, [1, 2, 1, 5]);
    assert_eq!(moves, 9);
}

#[test]
fn lanes_agree_with_the_scalar_kernel() {
    let cx = [-0.75f32, 0.3, 1.0, -1.8];
    let cy = [0.3f32, 0.5, 1.0, 0.05];
    for max_iter in [0u32, 1, 5, 50, 500] {
        let (counts, _) = iterate_group(cx, cy, max_iter);
        for lane in 0..LANES {
            for periodicity in [false, true] {
                let scalar = iterate_scalar(cx[lane], cy[lane], max_iter, periodicity);
                assert_eq!(counts[lane] as u32, scalar);
            }
        }
    }
}

#[test]
fn lane_count_does_not_depend_on_its_neighbours() {
    let alone = iterate_scalar(0.3, 0.5, 500, false);
    let (with_fast, _) = iterate_group([0.3, 10.0, 10.0, 10.0], [0.5, 0.0, 0.0, 0.0], 500);
    let (with_slow, _) = iterate_group([0.0, 0.0, 0.3, 0.0], [0.0, 0.0, 0.5, 0.0], 500);
    assert_eq!(with_fast[0] as u32, alone);
    assert_eq!(with_slow[2] as u32, alone);
}

#[test]
fn lane_counts_never_exceed_the_budget() {
    for max_iter in [0u32, 1, 7, 100] {
        let (counts, _) = iterate_group([0.0, -1.0, 0.3, 2.0], [0.0, 0.0, 0.5, 0.0], max_iter);
        for lane in 0..LANES {
            assert!(counts[lane] as u32 <= max_iter);
        }
        assert_eq!(counts[0] as u32, max_iter);
        assert_eq!(counts[1] as u32, max_iter);
    }
}

/// The counts of four points from one plain loop with a mask over the
/// lanes, with nothing factored out.
fn plain_group(cx: [f32; LANES], cy: [f32; LANES], max_iter: u32) -> [usize; LANES] {
    let mut zx = [0.0f32; LANES];
    let mut zy = [0.0f32; LANES];
    let mut iter = [0usize; LANES];
    let mut done = [false; LANES];
    for _ in 0..max_iter {
        let mut mask = [false; LANES];
        for lane in 0..LANES {
            mask[lane] = zx[lane] * zx[lane] + zy[lane] * zy[lane] < 4.0 && !done[lane];
        }
        if !mask.iter().any(|&active| active) {
            break;
        }
        for lane in 0..LANES {
            if mask[lane] {
                let next = next_value((zx[lane], zy[lane]), cx[lane], cy[lane]);
                zx[lane] = next.0;
                zy[lane] = next.1;
                iter[lane] += 1;
            }
            done[lane] |= !mask[lane];
        }
    }
    iter
}

#[test]
fn group_matches_a_plain_masked_loop_on_a_grid() {
    for max_iter in [0u32, 1, 30, 100] {
        for row in 0..25 {
            for group in 0..8 {
                let cy = [-1.2 + row as f32 * 0.1; LANES];
                let mut cx = [0.0f32; LANES];
                for lane in 0..LANES {
                    cx[lane] = -2.0 + (group * LANES + lane) as f32 * 0.1;
                }
                let (counts, _) = iterate_group(cx, cy, max_iter);
                assert_eq!(counts, plain_group(cx, cy, max_iter));
            }
        }
    }
}
