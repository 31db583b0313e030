//! Arithmetic laws of the evaluation model.
//!
//! The contracts of `Node::{add, sub, mul, div, neg}` pin every appended
//! step's evaluation to the elementwise combination of its operands'
//! evaluations, and `Graph::calculate` pins what is returned to [`eval`]
//! of the unchanged step structure. The lemmas here close the remaining
//! gap for scalar arithmetic: evaluating an arithmetic step over two
//! scalar operands yields exactly the fraction arithmetic of the operand
//! values — the sum, difference, product or quotient of the rationals, or
//! the negation — whenever the result stays representable.

use vstd::prelude::*;

use crate::error::Error;
use crate::grad::{backward, contribution, distribute, merge_into, ones_seed};
use crate::graph::{eval, StepModel};
use crate::operator::{
    check_range, ew_bin, ew_neg, is_binary, op_kind, rat_bin, OpKind, OperatorModel,
};
use crate::rational::{rat_add, rat_eq, rat_in_range, rat_mul, rat_neg, rat_one, rat_wf, Rat};
use crate::shape::count_of;

verus! {

/// Elementwise binary arithmetic over single-element sequences is exactly
/// the element operation.
pub proof fn lemma_ew_bin_scalar(kind: OpKind, a: Rat, b: Rat)
    ensures
        ew_bin(kind, seq![a], seq![b]) == (match rat_bin(kind, a, b) {
            Ok(v) => Ok::<Seq<Rat>, Error>(seq![v]),
            Err(e) => Err::<Seq<Rat>, Error>(e),
        }),
{
    let sa = seq![a];
    let sb = seq![b];
    assert(sa[0] == a && sb[0] == b);
    assert(sa.drop_first() =~= Seq::<Rat>::empty());
    match rat_bin(kind, a, b) {
        Ok(v) => {
            assert(ew_bin(kind, sa.drop_first(), sb.drop_first()) == Ok::<Seq<Rat>, Error>(
                Seq::<Rat>::empty(),
            ));
            assert(seq![v] + Seq::<Rat>::empty() =~= seq![v]);
        },
        Err(_) => {
        },
    }
}

/// Elementwise negation over a single-element sequence is exactly the
/// element negation.
pub proof fn lemma_ew_neg_scalar(a: Rat)
    ensures
        ew_neg(seq![a]) == (match check_range(rat_neg(a)) {
            Ok(v) => Ok::<Seq<Rat>, Error>(seq![v]),
            Err(e) => Err::<Seq<Rat>, Error>(e),
        }),
{
    let sa = seq![a];
    assert(sa[0] == a);
    assert(sa.drop_first() =~= Seq::<Rat>::empty());
    match check_range(rat_neg(a)) {
        Ok(v) => {
            assert(ew_neg(sa.drop_first()) == Ok::<Seq<Rat>, Error>(Seq::<Rat>::empty()));
            assert(seq![v] + Seq::<Rat>::empty() =~= seq![v]);
        },
        Err(_) => {
        },
    }
}

/// Evaluating a binary arithmetic step whose two inputs evaluate to the
/// scalars `a` and `b` yields exactly the fraction arithmetic of `a` and
/// `b`: the exact sum, difference, product or quotient when it stays
/// representable, and the corresponding error otherwise.
pub proof fn lemma_scalar_binary_step(steps: Seq<StepModel>, k: int, a: Rat, b: Rat)
    requires
        0 <= k < steps.len(),
        is_binary(op_kind(steps[k].op)),
        steps[k].inputs.len() == 2,
        steps[k].inputs[0].step < k,
        steps[k].inputs[1].step < k,
        eval(steps, steps[k].inputs[0].step as int) == Ok::<Seq<Rat>, Error>(seq![a]),
        eval(steps, steps[k].inputs[1].step as int) == Ok::<Seq<Rat>, Error>(seq![b]),
    ensures
        eval(steps, k) == (match rat_bin(op_kind(steps[k].op), a, b) {
            Ok(v) => Ok::<Seq<Rat>, Error>(seq![v]),
            Err(e) => Err::<Seq<Rat>, Error>(e),
        }),
{
    assert(steps[k].op !is Constant && steps[k].op !is Neg) by {
        match steps[k].op {
            crate::operator::OperatorModel::Constant(_) => {
                assert(false);
            },
            crate::operator::OperatorModel::Neg => {
                assert(false);
            },
            _ => {
            },
        }
    }
    lemma_ew_bin_scalar(op_kind(steps[k].op), a, b);
}

/// The diamond rule. In the graph holding a scalar constant `x` at step 0
/// and `y = x * x` at step 1, the reverse-mode accumulator — which the
/// contract of [`crate::grad::grad`] ties to the evaluation of every
/// gradient node it returns — assigns `x` the sum of the two product-rule
/// contributions, one per path of the diamond, and that sum denotes
/// exactly `2 * x`. Stated away from the edge of the 64-bit range, where
/// doubling `x` would instead surface as an `Overflow` at calculation.
pub proof fn lemma_diamond_gradient(steps: Seq<StepModel>, a: Rat)
    requires
        steps.len() == 2,
        steps[0].op matches OperatorModel::Constant(am) && am.vals == seq![a],
        steps[1].op is Mul,
        steps[1].inputs.len() == 2,
        steps[1].inputs[0].step == 0,
        steps[1].inputs[1].step == 0,
        steps[1].shape == Seq::<usize>::empty(),
        rat_wf(a),
        rat_in_range(a),
        rat_in_range(rat_add(a, a)),
    ensures
        backward(steps, 1, 0).dom().contains(0),
        backward(steps, 1, 0)[0] == Ok::<Seq<Rat>, Error>(seq![rat_add(a, a)]),
        rat_eq(rat_add(a, a), rat_mul(Rat { n: 2, d: 1 }, a)),
{
    let gy = ones_seed(steps, 1);
    assert(count_of(steps[1].shape) == 1);
    assert(Seq::new(1, |i: int| rat_one()) =~= seq![rat_one()]);
    assert(gy == Ok::<Seq<Rat>, Error>(seq![rat_one()]));
    let seeded = Map::<int, Result<Seq<Rat>, Error>>::empty().insert(1, gy);
    assert(backward(steps, 1, 2) == seeded);

    // Both product-rule contributions are 1 * x, which is exactly x.
    assert(eval(steps, 0) == Ok::<Seq<Rat>, Error>(seq![a]));
    lemma_ew_bin_scalar(OpKind::Mul, rat_one(), a);
    assert(rat_mul(rat_one(), a) == a);
    assert(contribution(steps, 1, 0, gy) == Ok::<Seq<Rat>, Error>(seq![a]));
    assert(contribution(steps, 1, 1, gy) == Ok::<Seq<Rat>, Error>(seq![a]));

    // The first contribution fills x's slot; the second is summed into it.
    let once = merge_into(seeded, 0, contribution(steps, 1, 0, gy));
    assert(once == seeded.insert(0, Ok::<Seq<Rat>, Error>(seq![a])));
    assert(distribute(steps, 1, seeded, gy, 0) == seeded);
    assert(distribute(steps, 1, seeded, gy, 1) == once);
    lemma_ew_bin_scalar(OpKind::Add, a, a);
    assert(distribute(steps, 1, seeded, gy, 2) == once.insert(
        0,
        Ok::<Seq<Rat>, Error>(seq![rat_add(a, a)]),
    ));
    assert(backward(steps, 1, 1) == distribute(steps, 1, seeded, gy, 2));

    // Step 0 is a constant: visiting it changes nothing.
    assert(backward(steps, 1, 0) == backward(steps, 1, 1));

    assert((a.n * a.d + a.n * a.d) * (1 * a.d) == (2 * a.n) * (a.d * a.d)) by (nonlinear_arith);
}

/// Summing two equal scalar contributions — the `Add` step the gradient
/// engine appends when two gradient paths meet at a shared dependency —
/// evaluates to a value equal, as a rational number, to twice the
/// contribution.
pub proof fn lemma_sum_at_merge_doubles(steps: Seq<StepModel>, k: int, v: Rat)
    requires
        0 <= k < steps.len(),
        steps[k].op is Add,
        steps[k].inputs.len() == 2,
        steps[k].inputs[0].step < k,
        steps[k].inputs[1].step < k,
        eval(steps, steps[k].inputs[0].step as int) == Ok::<Seq<Rat>, Error>(seq![v]),
        eval(steps, steps[k].inputs[1].step as int) == Ok::<Seq<Rat>, Error>(seq![v]),
        rat_wf(v),
        rat_in_range(rat_add(v, v)),
    ensures
        eval(steps, k) == Ok::<Seq<Rat>, Error>(seq![rat_add(v, v)]),
        rat_eq(rat_add(v, v), rat_mul(Rat { n: 2, d: 1 }, v)),
{
    lemma_scalar_binary_step(steps, k, v, v);
    assert((v.n * v.d + v.n * v.d) * (1 * v.d) == (2 * v.n) * (v.d * v.d))
        by (nonlinear_arith);
}

/// Evaluating a negation step whose input evaluates to the scalar `a`
/// yields exactly the negated fraction when it stays representable, and
/// an overflow error otherwise.
pub proof fn lemma_scalar_neg_step(steps: Seq<StepModel>, k: int, a: Rat)
    requires
        0 <= k < steps.len(),
        steps[k].op is Neg,
        steps[k].inputs.len() == 1,
        steps[k].inputs[0].step < k,
        eval(steps, steps[k].inputs[0].step as int) == Ok::<Seq<Rat>, Error>(seq![a]),
    ensures
        eval(steps, k) == (match check_range(rat_neg(a)) {
            Ok(v) => Ok::<Seq<Rat>, Error>(seq![v]),
            Err(e) => Err::<Seq<Rat>, Error>(e),
        }),
{
    lemma_ew_neg_scalar(a);
}

} // verus!
