//! The counter's arithmetic policy as a mathematical model.
//!
//! A state is a pair of values below 2^1024; an operation is one of the
//! three mutations. The policy: `tick` adds `increment` to `total`,
//! wrapping modulo 2^1024 at the (practically unreachable) limit;
//! `raise_increment` adds `STEP` to `increment`, saturating at the top of
//! the range; `lower_increment` takes `STEP` from `increment`, clamping
//! at a floor of 1. The laws of the policy are proved here over arbitrary
//! sequences of operations.

use vstd::prelude::*;
use vstd::arithmetic::power2::{pow2, lemma_pow2_pos, lemma_pow2_strictly_increases, lemma2_to64};
use vstd::arithmetic::div_mod::{lemma_mod_bound, lemma_small_mod};

verus! {

/// The amount one button press adds to or takes from `increment`.
pub const STEP: u64 = 1000;

/// The mathematical state of the counter.
pub struct CounterView {
    pub total: nat,
    pub increment: nat,
}

/// One mutation of the counter.
pub enum CounterOp {
    Tick,
    RaiseIncrement,
    LowerIncrement,
}

/// The width of the arithmetic: values live below 2^1024.
pub open spec fn modulus() -> nat {
    pow2(1024)
}

/// `tick`: add `increment` to `total`, wrapping modulo 2^1024.
pub open spec fn tick_spec(v: CounterView) -> CounterView {
    CounterView { total: (v.total + v.increment) % modulus(), increment: v.increment }
}

/// `raise_increment`: add `STEP` to `increment`, saturating at 2^1024 - 1.
pub open spec fn raise_spec(v: CounterView) -> CounterView {
    CounterView {
        total: v.total,
        increment: if v.increment + STEP < modulus() {
            (v.increment + STEP) as nat
        } else {
            (modulus() - 1) as nat
        },
    }
}

/// `lower_increment`: take `STEP` from `increment`, clamped at a floor of
/// 1, so the result can never reach 0 or wrap.
pub open spec fn lower_spec(v: CounterView) -> CounterView {
    CounterView {
        total: v.total,
        increment: if v.increment > STEP {
            (v.increment - STEP) as nat
        } else {
            1
        },
    }
}

/// One operation applied to a state.
pub open spec fn step_spec(v: CounterView, op: CounterOp) -> CounterView {
    match op {
        CounterOp::Tick => tick_spec(v),
        CounterOp::RaiseIncrement => raise_spec(v),
        CounterOp::LowerIncrement => lower_spec(v),
    }
}

/// A sequence of operations applied in order, first element first.
pub open spec fn run_spec(v: CounterView, ops: Seq<CounterOp>) -> CounterView
    decreases ops.len(),
{
    if ops.len() == 0 {
        v
    } else {
        run_spec(step_spec(v, ops[0]), ops.drop_first())
    }
}

/// The states the counter admits: both values fit in 1024 bits and the
/// increment is at least 1.
pub open spec fn inv(v: CounterView) -> bool {
    &&& v.total < modulus()
    &&& 1 <= v.increment < modulus()
}

/// The state a fresh counter starts in.
pub open spec fn initial_view() -> CounterView {
    CounterView { total: 0, increment: 1 }
}

/// The initial state satisfies the invariant.
pub proof fn lemma_initial_inv()
    ensures
        inv(initial_view()),
{
    lemma2_to64();
    lemma_pow2_strictly_increases(0, 1024);
}

/// Each single operation preserves the invariant; in particular the
/// increment stays at least 1.
pub proof fn lemma_step_preserves_inv(v: CounterView, op: CounterOp)
    requires
        inv(v),
    ensures
        inv(step_spec(v, op)),
        step_spec(v, op).increment >= 1,
{
    lemma_pow2_pos(1024);
    match op {
        CounterOp::Tick => {
            lemma_mod_bound((v.total + v.increment) as int, pow2(1024) as int);
        },
        CounterOp::RaiseIncrement => {
        },
        CounterOp::LowerIncrement => {
        },
    }
}

/// Law: from any admitted state, `increment >= 1` holds after any
/// sequence of operations.
pub proof fn lemma_increment_at_least_one(v: CounterView, ops: Seq<CounterOp>)
    requires
        inv(v),
    ensures
        inv(run_spec(v, ops)),
        run_spec(v, ops).increment >= 1,
    decreases ops.len(),
{
    if ops.len() > 0 {
        lemma_step_preserves_inv(v, ops[0]);
        lemma_increment_at_least_one(step_spec(v, ops[0]), ops.drop_first());
    }
}

/// Law: every state reachable from the fresh counter's state keeps
/// `increment >= 1`, whatever sequence of operations ran.
pub proof fn lemma_reachable_increment_at_least_one(ops: Seq<CounterOp>)
    ensures
        run_spec(initial_view(), ops).increment >= 1,
{
    lemma_initial_inv();
    lemma_increment_at_least_one(initial_view(), ops);
}

/// No `tick` along the run pushes `total` past the wrap at 2^1024.
pub open spec fn no_total_wrap(v: CounterView, ops: Seq<CounterOp>) -> bool
    decreases ops.len(),
{
    ops.len() == 0 || {
        &&& (ops[0] == CounterOp::Tick ==> v.total + v.increment < modulus())
        &&& no_total_wrap(step_spec(v, ops[0]), ops.drop_first())
    }
}

/// Law: `total` never decreases across any sequence of operations, as
/// long as no tick reaches the wrap at 2^1024.
pub proof fn lemma_total_monotonic(v: CounterView, ops: Seq<CounterOp>)
    requires
        no_total_wrap(v, ops),
    ensures
        run_spec(v, ops).total >= v.total,
    decreases ops.len(),
{
    if ops.len() > 0 {
        let v1 = step_spec(v, ops[0]);
        if ops[0] == CounterOp::Tick {
            lemma_pow2_pos(1024);
            lemma_small_mod(v.total + v.increment, pow2(1024));
        }
        lemma_total_monotonic(v1, ops.drop_first());
    }
}

/// `n` ticks in a row.
pub open spec fn ticks(n: nat) -> Seq<CounterOp> {
    Seq::new(n, |i: int| CounterOp::Tick)
}

proof fn lemma_mul_peel(n: int, i: int)
    by (nonlinear_arith)
    requires
        n >= 1,
        i >= 0,
    ensures
        (n - 1) * i == n * i - i,
        i <= n * i,
{
}

/// Law: `n` ticks at a fixed increment add exactly `n * increment` to
/// the total, short of the wrap at 2^1024.
pub proof fn lemma_ticks_add_n_times(v: CounterView, n: nat)
    requires
        v.total + n * v.increment < modulus(),
    ensures
        run_spec(v, ticks(n)).total == v.total + n * v.increment,
        run_spec(v, ticks(n)).increment == v.increment,
    decreases n,
{
    lemma_pow2_pos(1024);
    if n == 0 {
        assert(n * v.increment == 0) by {
            vstd::arithmetic::mul::lemma_mul_basics(v.increment as int);
        }
    } else {
        lemma_mul_peel(n as int, v.increment as int);
        lemma_small_mod(v.total + v.increment, pow2(1024));
        assert(ticks(n)[0] == CounterOp::Tick);
        assert(ticks(n).drop_first() =~= ticks((n - 1) as nat));
        lemma_ticks_add_n_times(tick_spec(v), (n - 1) as nat);
    }
}

/// Law: one raise followed by one lower with the same step leaves
/// `increment` where it started, provided the prior value was at least 1,
/// as it is in every admitted state; from a prior value of 0 the clamp
/// would leave it at 1 instead. Holds short of the saturation point at
/// 2^1024 - 1.
pub proof fn lemma_raise_then_lower(v: CounterView)
    requires
        v.increment + STEP < modulus(),
    ensures
        run_spec(v, seq![CounterOp::RaiseIncrement, CounterOp::LowerIncrement]).increment == (
        if v.increment >= 1 {
            v.increment
        } else {
            1
        }),
        run_spec(v, seq![CounterOp::RaiseIncrement, CounterOp::LowerIncrement]).total == v.total,
{
    let ops = seq![CounterOp::RaiseIncrement, CounterOp::LowerIncrement];
    let v1 = step_spec(v, ops[0]);
    let v2 = step_spec(v1, CounterOp::LowerIncrement);
    assert(ops.drop_first() =~= seq![CounterOp::LowerIncrement]);
    assert(seq![CounterOp::LowerIncrement].drop_first() =~= Seq::<CounterOp>::empty());
    assert(run_spec(v, ops) == run_spec(v1, ops.drop_first()));
    assert(run_spec(v1, seq![CounterOp::LowerIncrement]) == run_spec(
        v2,
        seq![CounterOp::LowerIncrement].drop_first(),
    ));
}

} // verus!
