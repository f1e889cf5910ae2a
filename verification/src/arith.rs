//! Saturating arithmetic and tick alignment, with their mathematical meaning.
//!
//! Ticks and unit counts live in `Uint`; the limiters never wrap and never
//! overflow. The spec functions here say what the clamped operations compute
//! over unbounded integers, and the executable functions are proved against
//! them.

use vstd::prelude::*;
use vstd::arithmetic::div_mod::{lemma_fundamental_div_mod, lemma_div_pos_is_pos, lemma_mod_multiples_basic};
use vstd::arithmetic::mul::lemma_mul_is_commutative;
use crate::types::Uint;

verus! {

/// The value of `x` clamped into the range of `Uint`.
pub open spec fn sat(x: int) -> nat {
    if x < 0 {
        0
    } else if x > Uint::MAX {
        Uint::MAX as nat
    } else {
        x as nat
    }
}

/// The values of `s` as natural numbers.
pub open spec fn to_nats(s: Seq<Uint>) -> Seq<nat> {
    Seq::new(s.len(), |i: int| s[i] as nat)
}

/// The largest multiple of `step` that is not above `tick`.
pub open spec fn align_down(tick: nat, step: nat) -> nat
    recommends
        step > 0,
{
    (tick / step) * step
}

/// The number of whole `step`s needed to cover `amount`.
pub open spec fn ceil_div(amount: nat, step: nat) -> nat
    recommends
        step > 0,
{
    if amount == 0 {
        0
    } else {
        ((amount - 1) / (step as int) + 1) as nat
    }
}

/// `align_down` stays at or below the tick, less than one step away, and on a
/// multiple of the step.
pub proof fn lemma_align_down(tick: nat, step: nat)
    requires
        step > 0,
    ensures
        align_down(tick, step) <= tick,
        tick - align_down(tick, step) == tick % step,
        tick - align_down(tick, step) < step,
        align_down(tick, step) % step == 0,
        align_down(tick, step) / step == tick / step,
{
    let q = tick / step;
    lemma_fundamental_div_mod(tick as int, step as int);
    lemma_mul_is_commutative(step as int, q as int);
    lemma_div_pos_is_pos(tick as int, step as int);
    lemma_mod_multiples_basic(q as int, step as int);
    vstd::arithmetic::div_mod::lemma_div_multiples_vanish(q as int, step as int);
}

/// Rounding up covers the amount, and one step less does not.
pub proof fn lemma_ceil_div(amount: nat, step: nat)
    requires
        step > 0,
    ensures
        ceil_div(amount, step) * step >= amount,
        amount > 0 ==> (ceil_div(amount, step) - 1) * step < amount,
{
    if amount > 0 {
        let q = (amount - 1) / (step as int);
        lemma_fundamental_div_mod(amount - 1, step as int);
        lemma_div_pos_is_pos(amount - 1, step as int);
        vstd::arithmetic::div_mod::lemma_mod_bound(amount - 1, step as int);
        assert((q + 1) * step == step * q + step) by (nonlinear_arith);
        assert(q * step == step * q) by (nonlinear_arith);
    } else {
        assert(0 * step == 0);
    }
}

/// Product of two values, clamped at `Uint::MAX`.
pub fn saturating_mul(a: Uint, b: Uint) -> (r: Uint)
    ensures
        r == sat(a * b),
{
    assert(a * b >= 0) by (nonlinear_arith)
        requires
            a >= 0,
            b >= 0,
    ;
    match a.checked_mul(b) {
        Some(p) => p,
        None => Uint::MAX,
    }
}

/// The start of the aligned span of length `step` that holds `tick`.
pub fn align_tick(tick: Uint, step: Uint) -> (r: Uint)
    requires
        step > 0,
    ensures
        r == align_down(tick as nat, step as nat),
        r <= tick,
{
    proof {
        lemma_align_down(tick as nat, step as nat);
    }
    (tick / step) * step
}

/// Whole steps needed to cover `amount`, rounding up.
pub fn steps_to_cover(amount: Uint, step: Uint) -> (r: Uint)
    requires
        step > 0,
    ensures
        r == ceil_div(amount as nat, step as nat),
        amount > 0 ==> r >= 1,
        r <= amount,
{
    if amount == 0 {
        0
    } else {
        proof {
            vstd::arithmetic::div_mod::lemma_div_is_ordered_by_denominator(
                (amount - 1) as int,
                1,
                step as int,
            );
            lemma_div_pos_is_pos((amount - 1) as int, step as int);
        }
        (amount - 1) / step + 1
    }
}

} // verus!
