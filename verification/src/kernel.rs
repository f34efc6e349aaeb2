//! The scalar iteration kernel: the escape time of one sample point, with
//! membership tests that spare the iteration and cycle detection that cuts
//! it short.

use crate::arithmetic::Arithmetic;
use vstd::prelude::*;

verus! {

/// With cycle detection on, the orbit's value is sampled after every step
/// whose index is a multiple of this.
pub const SAMPLE_INTERVAL: u32 = 20;

/// How the iteration of one sample point ended.
#[derive(Debug, PartialEq)]
pub enum Escape<Z> {
    /// The point counts as inside the set.
    Interior,
    /// The orbit was found outside the escape radius at the start of step
    /// `step`, at the value `z`. A smooth escape value is formed from the
    /// two.
    Escaped { step: u32, z: Z },
}

impl<Z> Escape<Z> {
    /// The whole iterations that the result stands for under the budget
    /// `max_iter`: the budget itself for an interior point.
    pub open spec fn count(self, max_iter: u32) -> u32 {
        match self {
            Escape::Interior => max_iter,
            Escape::Escaped { step, .. } => step,
        }
    }

    /// The iteration count of this result under the budget `max_iter`.
    pub fn iterations(&self, max_iter: u32) -> (n: u32)
        ensures
            n == self.count(max_iter),
    {
        match self {
            Escape::Interior => max_iter,
            Escape::Escaped { step, .. } => *step,
        }
    }

    /// Whether the point counts as inside the set.
    pub fn is_interior(&self) -> (b: bool)
        ensures
            b == (*self is Interior),
    {
        match self {
            Escape::Interior => true,
            Escape::Escaped { .. } => false,
        }
    }
}

/// The step whose value is the sample during step `step`: the origin during
/// the first step, afterwards the value that followed the last step whose
/// index is a multiple of the sampling interval.
pub open spec fn sample_index(step: nat) -> nat {
    if step == 0 {
        0
    } else {
        ((step - 1) / (SAMPLE_INTERVAL as int) * SAMPLE_INTERVAL + 1) as nat
    }
}

impl<A> Arithmetic<A> {
    /// Whether the value that follows step `step` compares equal to the
    /// sample of that step.
    pub open spec fn repeats_at(self, origin: A, step: nat) -> bool {
        (self.same)(self.orbit(origin, step + 1), self.orbit(origin, sample_index(step)))
    }

    /// Whether the iteration ends at step `step` if it comes that far: the
    /// orbit lies outside the escape radius, or cycle detection is on and
    /// finds a repeated value.
    pub open spec fn stops_at(self, origin: A, periodicity: bool, step: nat) -> bool {
        (self.outside)(self.orbit(origin, step)) || (periodicity && self.repeats_at(origin, step))
    }

    /// The first step from `from` on, and below `max_iter`, at which the
    /// iteration ends; `max_iter` if there is none.
    pub open spec fn first_stop(self, origin: A, periodicity: bool, from: nat, max_iter: nat) -> nat
        decreases max_iter - from,
    {
        if from >= max_iter {
            max_iter
        } else if self.stops_at(origin, periodicity, from) {
            from
        } else {
            self.first_stop(origin, periodicity, from + 1, max_iter)
        }
    }

    /// The result for the escape time of the orbit: interior if the orbit
    /// stays inside the escape radius for the whole budget, else the step
    /// and the value of the escape.
    pub open spec fn escape_result(self, origin: A, max_iter: u32) -> Escape<A> {
        let time = self.escape_time(origin, max_iter as nat);
        if time >= max_iter {
            Escape::Interior
        } else {
            Escape::Escaped { step: time as u32, z: self.orbit(origin, time) }
        }
    }

    /// What the kernel returns. A point that either membership test places
    /// inside the set is interior. For any other the orbit is followed to
    /// the first step at which the iteration ends: by an escape, with that
    /// step and value; as interior by a repeated value or by the end of the
    /// budget.
    pub open spec fn kernel_result(
        self,
        origin: A,
        max_iter: u32,
        periodicity: bool,
        in_cardioid: bool,
        in_bulb: bool,
    ) -> Escape<A> {
        let stop = self.first_stop(origin, periodicity, 0, max_iter as nat);
        if in_cardioid || in_bulb || stop >= max_iter || !(self.outside)(self.orbit(origin, stop)) {
            Escape::Interior
        } else {
            Escape::Escaped { step: stop as u32, z: self.orbit(origin, stop) }
        }
    }

    /// Whether the three functions compute what this arithmetic says.
    pub open spec fn computed_by<O: Fn(A) -> bool, M: Fn(A) -> A, S: Fn(A, A) -> bool>(
        self,
        outside: O,
        map: M,
        same: S,
    ) -> bool {
        &&& forall|z: A, r: bool| outside.ensures((z,), r) ==> r == (self.outside)(z)
        &&& forall|z: A, r: A| map.ensures((z,), r) ==> r == (self.map)(z)
        &&& forall|a: A, b: A, r: bool| same.ensures((a, b), r) ==> r == (self.same)(a, b)
    }
}

/// Iterates one sample point from `origin` for at most `max_iter` steps.
///
/// `outside` tells whether a value lies outside the escape radius, `map`
/// gives the value that follows a given one, and `same` compares two values
/// for cycle detection, which is done only where `use_periodicity_check` is
/// set. `in_cardioid` and `in_bulb` are the outcomes of the two membership
/// tests on the point: where either holds, no step is taken.
///
/// Whatever arithmetic the three functions compute, the result is that
/// arithmetic's `kernel_result`.
pub fn mandelbrot<Z, O, M, S>(
    origin: Z,
    max_iter: u32,
    use_periodicity_check: bool,
    in_cardioid: bool,
    in_bulb: bool,
    outside: O,
    map: M,
    same: S,
) -> (result: Escape<Z>) where Z: Copy, O: Fn(Z) -> bool, M: Fn(Z) -> Z, S: Fn(Z, Z) -> bool
    requires
        forall|z: Z| outside.requires((z,)),
        forall|z: Z| map.requires((z,)),
        forall|a: Z, b: Z| same.requires((a, b)),
    ensures
        in_cardioid || in_bulb ==> result == Escape::<Z>::Interior,
        result.count(max_iter) <= max_iter,
        forall|ar: Arithmetic<Z>| #[trigger]
            ar.computed_by(outside, map, same) ==> result == ar.kernel_result(
                origin,
                max_iter,
                use_periodicity_check,
                in_cardioid,
                in_bulb,
            ),
{
    if in_cardioid {
        return Escape::Interior;
    }
    if in_bulb {
        return Escape::Interior;
    }
    let mut z = origin;
    let mut sample_z = origin;

    let mut i: u32 = 0;
    while i < max_iter
        invariant
            forall|z: Z| outside.requires((z,)),
            forall|z: Z| map.requires((z,)),
            forall|a: Z, b: Z| same.requires((a, b)),
            !in_cardioid && !in_bulb,
            i <= max_iter,
            forall|ar: Arithmetic<Z>| #[trigger]
                ar.computed_by(outside, map, same) ==> {
                    &&& z == ar.orbit(origin, i as nat)
                    &&& use_periodicity_check ==> sample_z == ar.orbit(
                        origin,
                        sample_index(i as nat),
                    )
                    &&& ar.first_stop(origin, use_periodicity_check, 0, max_iter as nat)
                        == ar.first_stop(origin, use_periodicity_check, i as nat, max_iter as nat)
                },
        decreases max_iter - i,
    {
        let ghost step = i as nat;
        if outside(z) {
            proof {
                assert forall|ar: Arithmetic<Z>| #[trigger]
                    ar.computed_by(outside, map, same) implies ar.kernel_result(
                    origin,
                    max_iter,
                    use_periodicity_check,
                    in_cardioid,
                    in_bulb,
                ) == (Escape::Escaped { step: i, z }) by {
                    assert(ar.stops_at(origin, use_periodicity_check, step));
                }
            }
            return Escape::Escaped { step: i, z };
        }
        z = map(z);

        if use_periodicity_check {
            if same(z, sample_z) {
                proof {
                    assert forall|ar: Arithmetic<Z>| #[trigger]
                        ar.computed_by(outside, map, same) implies ar.kernel_result(
                        origin,
                        max_iter,
                        use_periodicity_check,
                        in_cardioid,
                        in_bulb,
                    ) == Escape::<Z>::Interior by {
                        assert(z == ar.orbit(origin, step + 1));
                        assert(ar.repeats_at(origin, step));
                        assert(ar.stops_at(origin, use_periodicity_check, step));
                        assert(!(ar.outside)(ar.orbit(origin, step)));
                    }
                }
                return Escape::Interior;
            }
            if i % SAMPLE_INTERVAL == 0 {
                sample_z = z;
            }
        }
        i = i + 1;
        proof {
            assert forall|ar: Arithmetic<Z>| #[trigger]
                ar.computed_by(outside, map, same) implies {
                &&& z == ar.orbit(origin, i as nat)
                &&& use_periodicity_check ==> sample_z == ar.orbit(
                    origin,
                    sample_index(i as nat),
                )
                &&& ar.first_stop(origin, use_periodicity_check, 0, max_iter as nat)
                    == ar.first_stop(origin, use_periodicity_check, i as nat, max_iter as nat)
            } by {
                assert(z == ar.orbit(origin, step + 1));
                assert(!ar.stops_at(origin, use_periodicity_check, step));
                assert(sample_index(step + 1) == if step % (SAMPLE_INTERVAL as nat) == 0 {
                    step + 1
                } else {
                    sample_index(step)
                });
            }
        }
    }

    Escape::Interior
}

impl<A> Arithmetic<A> {
    /// What `first_stop` finds: a step from `from` to the budget, before
    /// which the iteration does not end, and at which it does if the step is
    /// below the budget.
    pub proof fn lemma_first_stop(self, origin: A, periodicity: bool, from: nat, max_iter: nat)
        requires
            from <= max_iter,
        ensures
            from <= self.first_stop(origin, periodicity, from, max_iter) <= max_iter,
            forall|i: nat|
                from <= i < self.first_stop(origin, periodicity, from, max_iter)
                    ==> !#[trigger] self.stops_at(origin, periodicity, i),
            self.first_stop(origin, periodicity, from, max_iter) < max_iter ==> self.stops_at(
                origin,
                periodicity,
                self.first_stop(origin, periodicity, from, max_iter),
            ),
        decreases max_iter - from,
    {
        if from < max_iter && !self.stops_at(origin, periodicity, from) {
            self.lemma_first_stop(origin, periodicity, from + 1, max_iter);
        }
    }

    /// A point that either membership test places inside the set is
    /// interior, with the whole budget as its count, whatever its orbit and
    /// whether cycle detection is on or off.
    pub proof fn lemma_known_interior(
        self,
        origin: A,
        max_iter: u32,
        periodicity: bool,
        in_cardioid: bool,
        in_bulb: bool,
    )
        requires
            in_cardioid || in_bulb,
        ensures
            self.kernel_result(origin, max_iter, periodicity, in_cardioid, in_bulb)
                == Escape::<A>::Interior,
            self.kernel_result(origin, max_iter, periodicity, in_cardioid, in_bulb).count(
                max_iter,
            ) == max_iter,
    {
    }

    /// The count of a result never exceeds the budget, so without a budget
    /// every point has the count 0.
    pub proof fn lemma_count_within_budget(
        self,
        origin: A,
        max_iter: u32,
        periodicity: bool,
        in_cardioid: bool,
        in_bulb: bool,
    )
        ensures
            self.kernel_result(origin, max_iter, periodicity, in_cardioid, in_bulb).count(
                max_iter,
            ) <= max_iter,
            max_iter == 0 ==> self.kernel_result(
                origin,
                max_iter,
                periodicity,
                in_cardioid,
                in_bulb,
            ).count(max_iter) == 0,
    {
        self.lemma_first_stop(origin, periodicity, 0, max_iter as nat);
    }

    /// The kernel computes the escape time: on a point that passed no
    /// membership test, with cycle detection off or a consistent arithmetic,
    /// the result is the one for the escape time of the orbit.
    pub proof fn lemma_kernel_computes_escape_time(
        self,
        origin: A,
        max_iter: u32,
        periodicity: bool,
    )
        requires
            !periodicity || self.consistent(),
        ensures
            self.kernel_result(origin, max_iter, periodicity, false, false) == self.escape_result(
                origin,
                max_iter,
            ),
            self.kernel_result(origin, max_iter, periodicity, false, false).count(max_iter)
                == self.escape_time(origin, max_iter as nat),
    {
        let budget = max_iter as nat;
        let stop = self.first_stop(origin, periodicity, 0, budget);
        self.lemma_first_stop(origin, periodicity, 0, budget);
        self.lemma_first_outside(origin, 0, budget);
        assert forall|i: nat| i < stop implies !(self.outside)(
            #[trigger] self.orbit(origin, i),
        ) by {
            assert(!self.stops_at(origin, periodicity, i));
        }
        if stop < budget && !(self.outside)(self.orbit(origin, stop)) {
            assert(self.stops_at(origin, periodicity, stop));
            assert(self.repeats_at(origin, stop));
            assert forall|i: nat| i < budget implies !(self.outside)(
                #[trigger] self.orbit(origin, i),
            ) by {
                self.lemma_cycle_stays_inside(origin, sample_index(stop), stop, i);
            }
            self.lemma_escape_time_unique(origin, budget, budget);
        } else {
            self.lemma_escape_time_unique(origin, budget, stop);
        }
    }

    /// What cycle detection changes: where a repeated value is found before
    /// the escape time, the result with detection is interior; where none is,
    /// it is the result without detection. So an interior point stays
    /// interior.
    pub proof fn lemma_cycle_detection_effect(
        self,
        origin: A,
        max_iter: u32,
        in_cardioid: bool,
        in_bulb: bool,
    )
        ensures
            ({
                let time = self.escape_time(origin, max_iter as nat);
                let on = self.kernel_result(origin, max_iter, true, in_cardioid, in_bulb);
                let off = self.kernel_result(origin, max_iter, false, in_cardioid, in_bulb);
                &&& (exists|step: nat| step < time && self.repeats_at(origin, step)) ==> on
                    == Escape::<A>::Interior
                &&& !(exists|step: nat| step < time && self.repeats_at(origin, step)) ==> on == off
                &&& off == Escape::<A>::Interior ==> on == Escape::<A>::Interior
            }),
    {
        let budget = max_iter as nat;
        let time = self.escape_time(origin, budget);
        let stop = self.first_stop(origin, true, 0, budget);
        self.lemma_first_outside(origin, 0, budget);
        self.lemma_first_stop(origin, true, 0, budget);
        self.lemma_kernel_computes_escape_time(origin, max_iter, false);
        if stop < time {
            assert(!(self.outside)(self.orbit(origin, stop)));
            assert(self.stops_at(origin, true, stop));
            assert(self.repeats_at(origin, stop));
        } else {
            if time < budget {
                assert(self.stops_at(origin, true, time));
            }
            assert(stop == time);
            if exists|step: nat| step < time && self.repeats_at(origin, step) {
                let step = choose|step: nat| step < time && self.repeats_at(origin, step);
                assert(self.stops_at(origin, true, step));
            }
        }
    }

    /// Cycle detection is exact: with a consistent arithmetic the result is
    /// the same with detection on and off, for every point and every outcome
    /// of the membership tests.
    pub proof fn lemma_cycle_detection_is_exact(
        self,
        origin: A,
        max_iter: u32,
        in_cardioid: bool,
        in_bulb: bool,
    )
        requires
            self.consistent(),
        ensures
            self.kernel_result(origin, max_iter, true, in_cardioid, in_bulb) == self.kernel_result(
                origin,
                max_iter,
                false,
                in_cardioid,
                in_bulb,
            ),
    {
        self.lemma_kernel_computes_escape_time(origin, max_iter, true);
        self.lemma_kernel_computes_escape_time(origin, max_iter, false);
    }
}

} // verus!
