//! The counter itself: a running `total` and a per-tick `increment`,
//! both 1024-bit unsigned integers, mutated in place by the three
//! operations of the policy and rendered as decimal strings for the
//! surrounding UI.

use vstd::prelude::*;
use vstd::arithmetic::power2::{pow2, lemma_pow2_pos, lemma_pow2_strictly_increases, lemma2_to64};
use vstd::arithmetic::div_mod::{lemma_mod_multiples_vanish, lemma_small_mod};
use crate::big_uint::{BigUint, decimal_of};
use crate::model::{
    CounterOp, CounterView, initial_view, inv, lemma_initial_inv, lemma_step_preserves_inv,
    lower_spec, modulus, raise_spec, step_spec, tick_spec, STEP,
};

verus! {

/// The incremental counter: a running total and the amount added to it
/// on every tick. `increment` is never below 1.
pub struct BigCounter {
    total: BigUint,
    increment: BigUint,
}

impl View for BigCounter {
    type V = CounterView;

    closed spec fn view(&self) -> CounterView {
        CounterView { total: self.total.as_nat(), increment: self.increment.as_nat() }
    }
}

impl BigCounter {
    /// Well-formed: both quantities carry sixteen limbs and the state
    /// satisfies the policy invariant, `increment >= 1` in particular.
    pub closed spec fn wf(&self) -> bool {
        &&& self.total.wf()
        &&& self.increment.wf()
        &&& inv(self@)
    }

    /// A well-formed counter satisfies the policy invariant.
    pub proof fn lemma_wf_inv(&self)
        requires
            self.wf(),
        ensures
            inv(self@),
            self@.increment >= 1,
    {
    }

    /// A fresh counter: `total = 0`, `increment = 1`.
    pub fn new() -> (r: BigCounter)
        ensures
            r.wf(),
            r@ == initial_view(),
    {
        let r = BigCounter { total: BigUint::from_u64(0), increment: BigUint::from_u64(1) };
        proof {
            lemma_initial_inv();
        }
        r
    }

    /// A counter restored from given values. An `increment` of 0 is
    /// brought up to the floor of 1, which every operation then keeps.
    pub fn from_values(total: BigUint, increment: BigUint) -> (r: BigCounter)
        requires
            total.wf(),
            increment.wf(),
        ensures
            r.wf(),
            r@.total == total.as_nat(),
            r@.increment == if increment.as_nat() >= 1 {
                increment.as_nat()
            } else {
                1nat
            },
    {
        proof {
            total.lemma_value_bound();
            increment.lemma_value_bound();
            lemma_pow2_strictly_increases(0, 1024);
            lemma2_to64();
        }
        if increment.is_zero() {
            BigCounter { total, increment: BigUint::from_u64(1) }
        } else {
            BigCounter { total, increment }
        }
    }

    /// The running total.
    pub fn total(&self) -> (r: &BigUint)
        requires
            self.wf(),
        ensures
            r.wf(),
            r.as_nat() == self@.total,
    {
        &self.total
    }

    /// The amount added on each tick.
    pub fn increment(&self) -> (r: &BigUint)
        requires
            self.wf(),
        ensures
            r.wf(),
            r.as_nat() == self@.increment,
    {
        &self.increment
    }

    /// One frame: add `increment` to `total`, wrapping modulo 2^1024 at
    /// the practically unreachable top of the range.
    pub fn tick(&mut self)
        requires
            old(self).wf(),
        ensures
            final(self).wf(),
            final(self)@ == tick_spec(old(self)@),
            final(self)@ == step_spec(old(self)@, CounterOp::Tick),
            final(self)@.total == (old(self)@.total + old(self)@.increment) % modulus(),
            final(self)@.increment == old(self)@.increment,
    {
        let t = self.total.wrapping_add(&self.increment);
        self.total = t;
        proof {
            lemma_step_preserves_inv(old(self)@, CounterOp::Tick);
        }
    }

    /// The increment button: add `STEP` to `increment`, saturating at
    /// 2^1024 - 1 so that `increment` can never wrap down past 1.
    pub fn raise_increment(&mut self)
        requires
            old(self).wf(),
        ensures
            final(self).wf(),
            final(self)@ == raise_spec(old(self)@),
            final(self)@ == step_spec(old(self)@, CounterOp::RaiseIncrement),
            final(self)@.increment == if old(self)@.increment + STEP < modulus() {
                (old(self)@.increment + STEP) as nat
            } else {
                (modulus() - 1) as nat
            },
            final(self)@.total == old(self)@.total,
    {
        let step = BigUint::from_u64(STEP);
        let sum = self.increment.wrapping_add(&step);
        let (_, wrapped) = sum.borrowing_sub(&step);
        proof {
            let i = old(self)@.increment;
            lemma_pow2_pos(1024);
            lemma2_to64();
            lemma_pow2_strictly_increases(10, 1024);
            if i + STEP < modulus() {
                lemma_small_mod((i + STEP) as nat, pow2(1024));
            } else {
                self.increment.lemma_value_bound();
                lemma_mod_multiples_vanish(1, i + STEP - pow2(1024), pow2(1024) as int);
                lemma_small_mod((i + STEP - pow2(1024)) as nat, pow2(1024));
            }
        }
        if wrapped {
            self.increment = BigUint::max_value();
        } else {
            self.increment = sum;
        }
        proof {
            lemma_step_preserves_inv(old(self)@, CounterOp::RaiseIncrement);
        }
    }

    /// The decrement button: take `STEP` from `increment`, clamped at a
    /// floor of 1, never underflowing and never reaching 0.
    pub fn lower_increment(&mut self)
        requires
            old(self).wf(),
        ensures
            final(self).wf(),
            final(self)@ == lower_spec(old(self)@),
            final(self)@ == step_spec(old(self)@, CounterOp::LowerIncrement),
            final(self)@.increment == if old(self)@.increment > STEP {
                (old(self)@.increment - STEP) as nat
            } else {
                1nat
            },
            final(self)@.total == old(self)@.total,
    {
        let step = BigUint::from_u64(STEP);
        let (diff, borrowed) = self.increment.borrowing_sub(&step);
        if borrowed {
            self.increment = BigUint::from_u64(1);
        } else if diff.is_zero() {
            self.increment = BigUint::from_u64(1);
        } else {
            self.increment = diff;
        }
        proof {
            lemma_step_preserves_inv(old(self)@, CounterOp::LowerIncrement);
        }
    }

    /// The two values as decimal strings, `(total, increment)`, for the
    /// surrounding UI to render each frame.
    pub fn display(&self) -> (r: (String, String))
        requires
            self.wf(),
        ensures
            r.0@ == decimal_of(self@.total),
            r.1@ == decimal_of(self@.increment),
    {
        (self.total.to_decimal(), self.increment.to_decimal())
    }
}

} // verus!
