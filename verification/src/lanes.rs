//! The vector iteration kernel: a group of sample points iterated in
//! lock-step, each lane ending on its own.
//!
//! The kernel reports whole iteration counts, which a palette turns into
//! colors. A lane is frozen as soon as its value is no longer within the
//! escape radius, and the group stops once every lane is frozen.

use crate::arithmetic::Arithmetic;
use vstd::prelude::*;

verus! {

/// The number of sample points in one group.
pub const LANES: usize = 4;

/// Whether the two functions compute, for every index that `ars` has, what
/// the arithmetic at that index says: `below` whether a value does not lie
/// outside the escape radius, `map` the value that follows a given one.
pub open spec fn computed_by_each<Z, B: Fn(usize, Z) -> bool, M: Fn(usize, Z) -> Z>(
    ars: Seq<Arithmetic<Z>>,
    below: B,
    map: M,
) -> bool {
    &&& forall|i: usize, z: Z, r: bool|
        i < ars.len() && below.ensures((i, z), r) ==> r == !(ars[i as int].outside)(z)
    &&& forall|i: usize, z: Z, r: Z|
        i < ars.len() && map.ensures((i, z), r) ==> r == (ars[i as int].map)(z)
}

/// Where a lane stands on its orbit: at the value that its count names, with
/// the orbit inside the escape radius before that, and outside at that value
/// once the lane is frozen.
spec fn lane_standing<Z>(
    ar: Arithmetic<Z>,
    origin: Z,
    max_iter: u32,
    z: Z,
    iter: usize,
    done: bool,
) -> bool {
    &&& z == ar.orbit(origin, iter as nat)
    &&& forall|i: nat| i < iter ==> !(ar.outside)(#[trigger] ar.orbit(origin, i))
    &&& done ==> iter < max_iter && (ar.outside)(ar.orbit(origin, iter as nat))
}

/// Every lane stands so, whatever arithmetic the two functions compute for
/// it.
spec fn group_standing<Z, B: Fn(usize, Z) -> bool, M: Fn(usize, Z) -> Z>(
    below: B,
    map: M,
    origin: Z,
    max_iter: u32,
    z: Seq<Z>,
    iter: Seq<usize>,
    done: Seq<bool>,
) -> bool {
    forall|ars: Seq<Arithmetic<Z>>, lane: int|
        ars.len() == LANES && computed_by_each(ars, below, map) && 0 <= lane < LANES
            ==> #[trigger] lane_standing(
            ars[lane],
            origin,
            max_iter,
            z[lane],
            iter[lane],
            done[lane],
        )
}

/// Iterates a group of sample points from `origin` for at most `max_iter`
/// rounds and returns the iteration count of each lane.
///
/// `below` tells whether a lane's value is within the escape radius, and
/// `map` gives the value that follows a lane's value; both take the lane's
/// index first. In each round the lanes that are within the radius and not
/// frozen move on and count one more, the others are frozen. The group
/// stops when no lane moves on.
///
/// Whatever arithmetic the two functions compute for a lane, the lane's
/// count is the escape time of its orbit in that arithmetic.
pub fn mandelbrot_simd<Z, B, M>(
    origin: Z,
    max_iter: u32,
    below: B,
    map: M,
) -> (iters: [usize; LANES]) where Z: Copy, B: Fn(usize, Z) -> bool, M: Fn(usize, Z) -> Z
    requires
        forall|lane: usize, z: Z| lane < LANES ==> below.requires((lane, z)),
        forall|lane: usize, z: Z| lane < LANES ==> map.requires((lane, z)),
    ensures
        forall|lane: int| 0 <= lane < LANES ==> iters@[lane] <= max_iter,
        forall|ars: Seq<Arithmetic<Z>>, lane: int|
            ars.len() == LANES && computed_by_each(ars, below, map) && 0 <= lane < LANES
                ==> iters@[lane] == #[trigger] ars[lane].escape_time(origin, max_iter as nat),
{
    let mut z = [origin; LANES];
    let mut iter = [0usize; LANES];
    let mut done = [false; LANES];

    let mut round: u32 = 0;
    while round < max_iter
        invariant_except_break
            forall|k: int| 0 <= k < LANES ==> !(#[trigger] done@[k]) ==> iter@[k] == round,
        invariant
            forall|lane: usize, z: Z| lane < LANES ==> below.requires((lane, z)),
            forall|lane: usize, z: Z| lane < LANES ==> map.requires((lane, z)),
            round <= max_iter,
            forall|k: int| 0 <= k < LANES ==> (#[trigger] iter@[k]) <= round,
            group_standing(below, map, origin, max_iter, z@, iter@, done@),
        ensures
            forall|k: int| 0 <= k < LANES ==> !(#[trigger] done@[k]) ==> iter@[k] == max_iter,
        decreases max_iter - round,
    {
        let mut any = false;
        for lane in 0..LANES
            invariant
                forall|lane: usize, z: Z| lane < LANES ==> below.requires((lane, z)),
                forall|lane: usize, z: Z| lane < LANES ==> map.requires((lane, z)),
                round < max_iter,
                any == exists|k: int| 0 <= k < lane && !done@[k],
                forall|k: int|
                    0 <= k < lane ==> (#[trigger] iter@[k]) <= round + 1 && (!done@[k]
                        ==> iter@[k] == round + 1) && (done@[k] ==> iter@[k] <= round),
                forall|k: int|
                    lane <= k < LANES ==> (#[trigger] iter@[k]) <= round && (!done@[k]
                        ==> iter@[k] == round),
                group_standing(below, map, origin, max_iter, z@, iter@, done@),
        {
            let ghost z_before = z@;
            let ghost iter_before = iter@;
            let ghost done_before = done@;
            let value = z[lane];
            if !done[lane] && below(lane, value) {
                let moved = map(lane, value);
                z[lane] = moved;
                iter[lane] = iter[lane] + 1;
                any = true;
                proof {
                    assert(!done@[lane as int]);
                    assert forall|ars: Seq<Arithmetic<Z>>, k: int|
                        ars.len() == LANES && computed_by_each(ars, below, map) && 0 <= k
                            < LANES implies #[trigger] lane_standing(
                        ars[k],
                        origin,
                        max_iter,
                        z@[k],
                        iter@[k],
                        done@[k],
                    ) by {
                        let ar = ars[k];
                        assert(lane_standing(
                            ar,
                            origin,
                            max_iter,
                            z_before[k],
                            iter_before[k],
                            done_before[k],
                        ));
                        if k == lane {
                            assert(!(ar.outside)(value));
                            assert(moved == (ar.map)(value));
                            assert(moved == ar.orbit(origin, iter@[k] as nat));
                        }
                    }
                }
            } else {
                done[lane] = true;
                proof {
                    assert forall|k: int| 0 <= k < lane implies done@[k] == done_before[k] by {}
                    assert forall|ars: Seq<Arithmetic<Z>>, k: int|
                        ars.len() == LANES && computed_by_each(ars, below, map) && 0 <= k
                            < LANES implies #[trigger] lane_standing(
                        ars[k],
                        origin,
                        max_iter,
                        z@[k],
                        iter@[k],
                        done@[k],
                    ) by {
                        let ar = ars[k];
                        assert(lane_standing(
                            ar,
                            origin,
                            max_iter,
                            z_before[k],
                            iter_before[k],
                            done_before[k],
                        ));
                        if k == lane && !done_before[k] {
                            assert((ar.outside)(value));
                        }
                    }
                }
            }
        }

        if !any {
            break;
        }
        round = round + 1;
    }
    proof {
        assert forall|ars: Seq<Arithmetic<Z>>, lane: int|
            ars.len() == LANES && computed_by_each(ars, below, map) && 0 <= lane
                < LANES implies iter@[lane] == #[trigger] ars[lane].escape_time(
            origin,
            max_iter as nat,
        ) by {
            assert(lane_standing(ars[lane], origin, max_iter, z@[lane], iter@[lane], done@[lane]));
            ars[lane].lemma_escape_time_unique(origin, max_iter as nat, iter@[lane] as nat);
        }
    }
    iter
}

/// A lane and the scalar kernel agree on the whole iteration count: for a
/// point that passed no membership test, the count of the scalar kernel's
/// result is the escape time of the orbit, which is the count of a lane with
/// the same arithmetic.
pub proof fn lemma_lane_agrees_with_scalar<A>(
    ars: Seq<Arithmetic<A>>,
    lane: int,
    origin: A,
    max_iter: u32,
    periodicity: bool,
)
    requires
        0 <= lane < LANES,
        !periodicity || ars[lane].consistent(),
    ensures
        ars[lane].kernel_result(origin, max_iter, periodicity, false, false).count(max_iter)
            == ars[lane].escape_time(origin, max_iter as nat),
{
    ars[lane].lemma_kernel_computes_escape_time(origin, max_iter, periodicity);
}

} // verus!
