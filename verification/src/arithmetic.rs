//! The arithmetic on orbit values, as far as the kernels depend on it, and
//! the escape time of an orbit.
//!
//! The kernels are generic in the type of an orbit's values and take the
//! arithmetic as functions. Their contracts speak of what those functions
//! compute, which this module gives a name.

use vstd::prelude::*;

verus! {

/// The arithmetic on orbit values of type `A`.
#[verifier::reject_recursive_types(A)]
pub struct Arithmetic<A> {
    /// The value that follows a given one on the orbit.
    pub map: spec_fn(A) -> A,
    /// Whether a value lies outside the escape radius.
    pub outside: spec_fn(A) -> bool,
    /// Whether two values compare equal.
    pub same: spec_fn(A, A) -> bool,
}

impl<A> Arithmetic<A> {
    /// The orbit's value after `n` steps from `origin`.
    pub open spec fn orbit(self, origin: A, n: nat) -> A
        decreases n,
    {
        if n == 0 {
            origin
        } else {
            (self.map)(self.orbit(origin, (n - 1) as nat))
        }
    }

    /// A value that compares equal to one inside the escape radius lies
    /// inside it too, and the values that follow the two compare equal.
    pub open spec fn consistent(self) -> bool {
        forall|a: A, b: A| #[trigger]
            (self.same)(a, b) && !(self.outside)(b) ==> !(self.outside)(a) && (self.same)(
                (self.map)(a),
                (self.map)(b),
            )
    }

    /// The first step from `from` on, and below `max_iter`, at which the
    /// orbit lies outside the escape radius; `max_iter` if there is none.
    pub open spec fn first_outside(self, origin: A, from: nat, max_iter: nat) -> nat
        decreases max_iter - from,
    {
        if from >= max_iter {
            max_iter
        } else if (self.outside)(self.orbit(origin, from)) {
            from
        } else {
            self.first_outside(origin, from + 1, max_iter)
        }
    }

    /// The escape time of the orbit from `origin` under the budget
    /// `max_iter`: the first step at which it lies outside the escape
    /// radius, and the budget if it stays inside.
    pub open spec fn escape_time(self, origin: A, max_iter: nat) -> nat {
        self.first_outside(origin, 0, max_iter)
    }

    /// What `first_outside` finds: a step from `from` to the budget, with the
    /// orbit inside the escape radius at every step between `from` and it,
    /// and outside at the step itself if that is below the budget.
    pub proof fn lemma_first_outside(self, origin: A, from: nat, max_iter: nat)
        requires
            from <= max_iter,
        ensures
            from <= self.first_outside(origin, from, max_iter) <= max_iter,
            forall|i: nat|
                from <= i < self.first_outside(origin, from, max_iter) ==> !(self.outside)(
                    #[trigger] self.orbit(origin, i),
                ),
            self.first_outside(origin, from, max_iter) < max_iter ==> (self.outside)(
                self.orbit(origin, self.first_outside(origin, from, max_iter)),
            ),
        decreases max_iter - from,
    {
        if from < max_iter && !(self.outside)(self.orbit(origin, from)) {
            self.lemma_first_outside(origin, from + 1, max_iter);
        }
    }

    /// The escape time is the only step up to the budget before which the
    /// orbit is inside the escape radius and at which, if it is below the
    /// budget, the orbit is outside.
    pub proof fn lemma_escape_time_unique(self, origin: A, max_iter: nat, step: nat)
        requires
            step <= max_iter,
            forall|i: nat| i < step ==> !(self.outside)(#[trigger] self.orbit(origin, i)),
            step < max_iter ==> (self.outside)(self.orbit(origin, step)),
        ensures
            step == self.escape_time(origin, max_iter),
    {
        self.lemma_first_outside(origin, 0, max_iter);
        let time = self.escape_time(origin, max_iter);
        if time < step {
            assert(!(self.outside)(self.orbit(origin, time)));
        } else if step < time {
            assert(!(self.outside)(self.orbit(origin, step)));
        }
    }

    /// Once a value of the orbit compares equal to an earlier one, and the
    /// orbit has stayed inside the escape radius up to there, it stays
    /// inside for good.
    pub proof fn lemma_cycle_stays_inside(self, origin: A, earlier: nat, last: nat, i: nat)
        requires
            self.consistent(),
            earlier <= last,
            (self.same)(self.orbit(origin, last + 1), self.orbit(origin, earlier)),
            forall|j: nat| j <= last ==> !(self.outside)(#[trigger] self.orbit(origin, j)),
        ensures
            !(self.outside)(self.orbit(origin, i)),
            i > last ==> (self.same)(
                self.orbit(origin, i),
                self.orbit(origin, (i - (last + 1 - earlier)) as nat),
            ),
        decreases i,
    {
        if i > last {
            let back = (i - (last + 1 - earlier)) as nat;
            if i > last + 1 {
                self.lemma_cycle_stays_inside(origin, earlier, last, (i - 1) as nat);
                self.lemma_cycle_stays_inside(origin, earlier, last, (back - 1) as nat);
                assert(self.orbit(origin, back) == (self.map)(
                    self.orbit(origin, (back - 1) as nat),
                ));
            }
            self.lemma_cycle_stays_inside(origin, earlier, last, back);
        }
    }
}

} // verus!
