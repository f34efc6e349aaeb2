//! The field evaluator: a region of the pixel buffer is painted lane group
//! by lane group, each group iterated by the vector kernel and colored from
//! the palette; and the statistic of a finished frame that switches cycle
//! detection.

use crate::arithmetic::Arithmetic;
use crate::color::BLACK;
use crate::lanes::{computed_by_each, mandelbrot_simd, LANES};
use vstd::prelude::*;

verus! {

/// Cycle detection is worth its cost for the next frame where more than one
/// pixel in this many is interior.
pub const INTERIOR_SHARE: usize = 1024;

/// Paints the lane group that starts at pixel `x0` of `row`: the pixel of
/// each lane gets the palette's color for the lane's count, and no other
/// pixel changes.
pub fn paint_group(row: &mut [u32], x0: usize, iters: &[usize; LANES], palette: &[u32])
    requires
        x0 + LANES <= old(row)@.len(),
        forall|lane: int| 0 <= lane < LANES ==> iters@[lane] < palette@.len(),
    ensures
        final(row)@.len() == old(row)@.len(),
        forall|x: int|
            0 <= x < old(row)@.len() ==> final(row)@[x] == if x0 <= x < x0 + LANES {
                palette@[iters@[x - x0] as int]
            } else {
                old(row)@[x]
            },
{
    let ghost before = row@;
    assert(before.len() == row.len());
    for lane in 0..LANES
        invariant
            row@.len() == before.len() <= usize::MAX,
            x0 + LANES <= before.len(),
            forall|k: int| 0 <= k < LANES ==> iters@[k] < palette@.len(),
            forall|x: int|
                0 <= x < before.len() ==> row@[x] == if x0 <= x < x0 + lane {
                    palette@[iters@[x - x0] as int]
                } else {
                    before[x]
                },
    {
        let x = x0 + lane;
        row[x] = palette[iters[lane]];
    }
}

/// Whether `color` is the palette's entry for some count up to the budget.
pub open spec fn from_palette(palette: Seq<u32>, max_iter: u32, color: u32) -> bool {
    exists|iter: int| 0 <= iter <= max_iter && color == palette[iter]
}

/// Paints a region of the pixel buffer, a row or the whole frame. The
/// region is taken group by group; each group is iterated from `origin` for
/// at most `max_iter` rounds, and each of its pixels gets the palette's color
/// for its iteration count. Every pixel of the region is written.
///
/// `below` tells whether a pixel's value is within the escape radius, and
/// `map` gives the value that follows a pixel's value; both take the pixel's
/// index in the region first.
///
/// Whatever arithmetic the two functions compute for a pixel, the pixel's
/// color is the palette's entry for the escape time of its orbit in that
/// arithmetic.
pub fn mandelbrot_image<Z, B, M>(
    pixels: &mut [u32],
    palette: &[u32],
    max_iter: u32,
    origin: Z,
    below: B,
    map: M,
) where Z: Copy, B: Fn(usize, Z) -> bool, M: Fn(usize, Z) -> Z
    requires
        old(pixels)@.len() % (LANES as nat) == 0,
        palette@.len() > max_iter,
        forall|x: usize, z: Z| x < old(pixels)@.len() ==> below.requires((x, z)),
        forall|x: usize, z: Z| x < old(pixels)@.len() ==> map.requires((x, z)),
    ensures
        final(pixels)@.len() == old(pixels)@.len(),
        forall|x: int|
            0 <= x < old(pixels)@.len() ==> from_palette(palette@, max_iter, final(pixels)@[x]),
        forall|ars: Seq<Arithmetic<Z>>, x: int|
            ars.len() == old(pixels)@.len() && computed_by_each(ars, below, map) && 0 <= x
                < ars.len() ==> final(pixels)@[x] == palette@[#[trigger] ars[x].escape_time(
                origin,
                max_iter as nat,
            ) as int],
{
    let ghost len = pixels@.len();
    assert(len == pixels.len());
    let groups = pixels.len() / LANES;
    let below = &below;
    let map = &map;
    for group in 0..groups
        invariant
            pixels@.len() == len == groups * LANES <= usize::MAX,
            palette@.len() > max_iter,
            forall|x: usize, z: Z| x < len ==> below.requires((x, z)),
            forall|x: usize, z: Z| x < len ==> map.requires((x, z)),
            forall|x: int| 0 <= x < group * LANES ==> from_palette(palette@, max_iter, pixels@[x]),
            forall|ars: Seq<Arithmetic<Z>>, x: int|
                ars.len() == len && computed_by_each(ars, below, map) && 0 <= x < group * LANES
                    ==> pixels@[x] == palette@[#[trigger] ars[x].escape_time(
                    origin,
                    max_iter as nat,
                ) as int],
    {
        let x0 = group * LANES;
        let group_below = |lane: usize, z: Z| -> (r: bool)
            requires
                lane < LANES,
            ensures
                below.ensures(((x0 + lane) as usize, z), r),
            { below(x0 + lane, z) };
        let group_map = |lane: usize, z: Z| -> (r: Z)
            requires
                lane < LANES,
            ensures
                map.ensures(((x0 + lane) as usize, z), r),
            { map(x0 + lane, z) };
        let iters = mandelbrot_simd(origin, max_iter, group_below, group_map);
        let ghost before = pixels@;
        paint_group(pixels, x0, &iters, palette);
        proof {
            assert forall|x: int| 0 <= x < x0 + LANES implies from_palette(
                palette@,
                max_iter,
                pixels@[x],
            ) by {
                if x < x0 {
                    assert(pixels@[x] == before[x]);
                } else {
                    assert(pixels@[x] == palette@[iters@[x - x0] as int]);
                }
            }
            assert forall|ars: Seq<Arithmetic<Z>>, x: int|
                ars.len() == len && computed_by_each(ars, below, map) && 0 <= x < x0
                    + LANES implies pixels@[x] == palette@[#[trigger] ars[x].escape_time(
                origin,
                max_iter as nat,
            ) as int] by {
                if x < x0 {
                    assert(pixels@[x] == before[x]);
                } else {
                    let lane_ars = ars.subrange(x0 as int, x0 + LANES);
                    assert(computed_by_each(lane_ars, group_below, group_map)) by {
                        assert forall|i: usize, z: Z, r: bool|
                            i < lane_ars.len() && group_below.ensures((i, z), r) implies r == !(
                        lane_ars[i as int].outside)(z) by {
                            assert(below.ensures(((x0 + i) as usize, z), r));
                        }
                        assert forall|i: usize, z: Z, r: Z|
                            i < lane_ars.len() && group_map.ensures((i, z), r) implies r == (
                        lane_ars[i as int].map)(z) by {
                            assert(map.ensures(((x0 + i) as usize, z), r));
                        }
                    }
                    assert(lane_ars[x - x0] == ars[x]);
                    assert(iters@[x - x0] == lane_ars[x - x0].escape_time(
                        origin,
                        max_iter as nat,
                    ));
                }
            }
        }
    }
}

/// How many pixels are black, the color of the interior.
pub open spec fn interior_count(pixels: Seq<u32>) -> nat {
    pixels.filter(|pixel: u32| pixel == BLACK).len()
}

/// One more pixel adds one to the count if it is black, and nothing if not.
pub proof fn lemma_interior_count_push(pixels: Seq<u32>, pixel: u32)
    ensures
        interior_count(pixels.push(pixel)) == interior_count(pixels) + if pixel == BLACK {
            1nat
        } else {
            0nat
        },
        interior_count(pixels) <= pixels.len(),
{
    reveal(Seq::filter);
    assert(pixels.push(pixel).drop_last() =~= pixels);
    pixels.lemma_filter_len(|pixel: u32| pixel == BLACK);
}

/// Counts the interior pixels of a frame.
pub fn count_interior(pixels: &[u32]) -> (n: usize)
    ensures
        n == interior_count(pixels@),
{
    let mut n: usize = 0;
    proof {
        reveal(Seq::filter);
        assert(pixels@.take(0) =~= Seq::<u32>::empty());
    }
    for i in 0..pixels.len()
        invariant
            n == interior_count(pixels@.take(i as int)),
            n <= i,
    {
        proof {
            lemma_interior_count_push(pixels@.take(i as int), pixels@[i as int]);
            assert(pixels@.take(i as int).push(pixels@[i as int]) =~= pixels@.take(i + 1));
        }
        if pixels[i] == BLACK {
            n = n + 1;
        }
    }
    assert(pixels@.take(pixels@.len() as int) =~= pixels@);
    n
}

/// Decides from a finished frame whether the next one is iterated with
/// cycle detection: only if more than one pixel in `INTERIOR_SHARE` is
/// interior.
pub fn use_periodicity_check(pixels: &[u32]) -> (on: bool)
    ensures
        on == (interior_count(pixels@) > pixels@.len() / (INTERIOR_SHARE as nat)),
{
    count_interior(pixels) > pixels.len() / INTERIOR_SHARE
}

} // verus!
