//! Operators: the computation rules attached to graph steps.
//!
//! The operator set is closed: a constant, the four elementwise binary
//! arithmetic operations, and elementwise negation. Each operator defines a
//! shape rule, a hardware rule and an execution rule; the symbolic gradient
//! rules live with the gradient engine.

use vstd::prelude::*;

use crate::array::{arr_wf, Array, ArrayModel};
use crate::buffer::Buffer;
use crate::error::Error;
use crate::rational::{
    rat_add, rat_div, rat_eq, rat_in_range, rat_mul, rat_neg, rat_sub, rat_wf, rats_of, rats_wf,
    Rat, Rational,
};
use crate::shape::Shape;

verus! {

/// The tag of an operator, without any captured value.
#[derive(Clone, Copy, Debug, PartialEq, Eq, Structural)]
pub enum OpKind {
    Constant,
    Add,
    Sub,
    Mul,
    Div,
    Neg,
}

/// Mathematical content of an [`Operator`].
pub enum OperatorModel {
    Constant(ArrayModel),
    Add,
    Sub,
    Mul,
    Div,
    Neg,
}

/// The tag of an operator model.
pub open spec fn op_kind(op: OperatorModel) -> OpKind {
    match op {
        OperatorModel::Constant(_) => OpKind::Constant,
        OperatorModel::Add => OpKind::Add,
        OperatorModel::Sub => OpKind::Sub,
        OperatorModel::Mul => OpKind::Mul,
        OperatorModel::Div => OpKind::Div,
        OperatorModel::Neg => OpKind::Neg,
    }
}

/// How many inputs each operator kind consumes.
pub open spec fn arity(kind: OpKind) -> nat {
    match kind {
        OpKind::Constant => 0,
        OpKind::Neg => 1,
        _ => 2,
    }
}

/// Whether a kind is one of the four binary arithmetic operations.
pub open spec fn is_binary(kind: OpKind) -> bool {
    arity(kind) == 2
}

/// One binary operation on exact rationals: the exact fraction result when
/// its components stay in 64-bit range, `Overflow` when they do not, and
/// `DivisionByZero` for division by an exact zero. Meaningful only for
/// binary kinds.
pub open spec fn rat_bin(kind: OpKind, a: Rat, b: Rat) -> Result<Rat, Error> {
    match kind {
        OpKind::Add => check_range(rat_add(a, b)),
        OpKind::Sub => check_range(rat_sub(a, b)),
        OpKind::Mul => check_range(rat_mul(a, b)),
        OpKind::Div => if b.n == 0 {
            Err(Error::DivisionByZero)
        } else {
            check_range(rat_div(a, b))
        },
        _ => Err(Error::InvalidGraph),
    }
}

/// The exact fraction when it fits in 64-bit components, else `Overflow`.
pub open spec fn check_range(v: Rat) -> Result<Rat, Error> {
    if rat_in_range(v) {
        Ok(v)
    } else {
        Err(Error::Overflow)
    }
}

/// Elementwise binary operation over two equally long value sequences,
/// stopping at the first failing element.
pub open spec fn ew_bin(kind: OpKind, a: Seq<Rat>, b: Seq<Rat>) -> Result<Seq<Rat>, Error>
    decreases a.len(),
{
    if a.len() == 0 {
        Ok(Seq::empty())
    } else {
        match rat_bin(kind, a[0], b[0]) {
            Err(e) => Err(e),
            Ok(v) => match ew_bin(kind, a.drop_first(), b.drop_first()) {
                Err(e) => Err(e),
                Ok(rest) => Ok(seq![v] + rest),
            },
        }
    }
}

/// Elementwise negation, stopping at the first element whose negation
/// leaves the 64-bit range.
pub open spec fn ew_neg(a: Seq<Rat>) -> Result<Seq<Rat>, Error>
    decreases a.len(),
{
    if a.len() == 0 {
        Ok(Seq::empty())
    } else {
        match check_range(rat_neg(a[0])) {
            Err(e) => Err(e),
            Ok(v) => match ew_neg(a.drop_first()) {
                Err(e) => Err(e),
                Ok(rest) => Ok(seq![v] + rest),
            },
        }
    }
}

/// When every element operation succeeds, the elementwise result is the
/// sequence of element results.
pub proof fn lemma_ew_bin_ok(kind: OpKind, a: Seq<Rat>, b: Seq<Rat>, out: Seq<Rat>)
    requires
        a.len() == b.len(),
        out.len() == a.len(),
        forall|k: int| 0 <= k < a.len() ==> rat_bin(kind, a[k], b[k]) == Ok::<Rat, Error>(
            #[trigger] out[k],
        ),
    ensures
        ew_bin(kind, a, b) == Ok::<Seq<Rat>, Error>(out),
    decreases a.len(),
{
    if a.len() > 0 {
        assert forall|k: int| 0 <= k < a.drop_first().len() implies rat_bin(
            kind,
            a.drop_first()[k],
            b.drop_first()[k],
        ) == Ok::<Rat, Error>(#[trigger] out.drop_first()[k]) by {
            assert(a.drop_first()[k] == a[k + 1]);
            assert(b.drop_first()[k] == b[k + 1]);
            assert(out.drop_first()[k] == out[k + 1]);
        }
        lemma_ew_bin_ok(kind, a.drop_first(), b.drop_first(), out.drop_first());
        assert(rat_bin(kind, a[0], b[0]) == Ok::<Rat, Error>(out[0]));
        assert(seq![out[0]] + out.drop_first() =~= out);
    } else {
        assert(out =~= Seq::<Rat>::empty());
    }
}

/// When the first `i` element operations succeed and the one at `i` fails,
/// the elementwise result is that failure.
pub proof fn lemma_ew_bin_err(kind: OpKind, a: Seq<Rat>, b: Seq<Rat>, i: int, e: Error)
    requires
        a.len() == b.len(),
        0 <= i < a.len(),
        forall|k: int| 0 <= k < i ==> (#[trigger] rat_bin(kind, a[k], b[k])) is Ok,
        rat_bin(kind, a[i], b[i]) == Err::<Rat, Error>(e),
    ensures
        ew_bin(kind, a, b) == Err::<Seq<Rat>, Error>(e),
    decreases a.len(),
{
    if i > 0 {
        assert forall|k: int| 0 <= k < i - 1 implies (#[trigger] rat_bin(
            kind,
            a.drop_first()[k],
            b.drop_first()[k],
        )) is Ok by {
            assert(a.drop_first()[k] == a[k + 1]);
            assert(b.drop_first()[k] == b[k + 1]);
            assert(rat_bin(kind, a[k + 1], b[k + 1]) is Ok);
        }
        assert(a.drop_first()[i - 1] == a[i] && b.drop_first()[i - 1] == b[i]);
        lemma_ew_bin_err(kind, a.drop_first(), b.drop_first(), i - 1, e);
        assert(rat_bin(kind, a[0], b[0]) is Ok);
    }
}

/// When every element negation succeeds, the elementwise result is the
/// sequence of element results.
pub proof fn lemma_ew_neg_ok(a: Seq<Rat>, out: Seq<Rat>)
    requires
        out.len() == a.len(),
        forall|k: int| 0 <= k < a.len() ==> check_range(rat_neg(a[k])) == Ok::<Rat, Error>(
            #[trigger] out[k],
        ),
    ensures
        ew_neg(a) == Ok::<Seq<Rat>, Error>(out),
    decreases a.len(),
{
    if a.len() > 0 {
        assert forall|k: int| 0 <= k < a.drop_first().len() implies check_range(
            rat_neg(a.drop_first()[k]),
        ) == Ok::<Rat, Error>(#[trigger] out.drop_first()[k]) by {
            assert(a.drop_first()[k] == a[k + 1]);
            assert(out.drop_first()[k] == out[k + 1]);
        }
        lemma_ew_neg_ok(a.drop_first(), out.drop_first());
        assert(check_range(rat_neg(a[0])) == Ok::<Rat, Error>(out[0]));
        assert(seq![out[0]] + out.drop_first() =~= out);
    } else {
        assert(out =~= Seq::<Rat>::empty());
    }
}

/// When the first `i` element negations succeed and the one at `i` fails,
/// the elementwise result is that failure.
pub proof fn lemma_ew_neg_err(a: Seq<Rat>, i: int, e: Error)
    requires
        0 <= i < a.len(),
        forall|k: int| 0 <= k < i ==> (#[trigger] check_range(rat_neg(a[k]))) is Ok,
        check_range(rat_neg(a[i])) == Err::<Rat, Error>(e),
    ensures
        ew_neg(a) == Err::<Seq<Rat>, Error>(e),
    decreases a.len(),
{
    if i > 0 {
        assert forall|k: int| 0 <= k < i - 1 implies (#[trigger] check_range(
            rat_neg(a.drop_first()[k]),
        )) is Ok by {
            assert(a.drop_first()[k] == a[k + 1]);
            assert(check_range(rat_neg(a[k + 1])) is Ok);
        }
        assert(a.drop_first()[i - 1] == a[i]);
        lemma_ew_neg_err(a.drop_first(), i - 1, e);
        assert(check_range(rat_neg(a[0])) is Ok);
    }
}

/// One binary element operation, performed exactly.
fn apply_bin(kind: OpKind, x: &Rational, y: &Rational) -> (r: Result<Rational, Error>)
    requires
        is_binary(kind),
        rat_wf(x@),
        rat_wf(y@),
    ensures
        r matches Ok(v) ==> rat_bin(kind, x@, y@) == Ok::<Rat, Error>(v@) && rat_wf(v@),
        r matches Err(e) ==> rat_bin(kind, x@, y@) == Err::<Rat, Error>(e),
{
    match kind {
        OpKind::Add => match x.checked_add(y) {
            Some(v) => Ok(v),
            None => Err(Error::Overflow),
        },
        OpKind::Sub => match x.checked_sub(y) {
            Some(v) => Ok(v),
            None => Err(Error::Overflow),
        },
        OpKind::Mul => match x.checked_mul(y) {
            Some(v) => Ok(v),
            None => Err(Error::Overflow),
        },
        OpKind::Div => x.checked_div(y),
        _ => Err(Error::InvalidGraph),
    }
}

/// The elementwise binary kernel on raw value vectors.
pub(crate) fn elementwise_bin(kind: OpKind, a: &Vec<Rational>, b: &Vec<Rational>) -> (r: Result<
    Vec<Rational>,
    Error,
>)
    requires
        is_binary(kind),
        a@.len() == b@.len(),
        rats_wf(rats_of(a@)),
        rats_wf(rats_of(b@)),
    ensures
        r matches Ok(v) ==> {
            &&& ew_bin(kind, rats_of(a@), rats_of(b@)) == Ok::<Seq<Rat>, Error>(rats_of(v@))
            &&& rats_wf(rats_of(v@))
            &&& v@.len() == a@.len()
        },
        r matches Err(e) ==> ew_bin(kind, rats_of(a@), rats_of(b@)) == Err::<Seq<Rat>, Error>(e),
{
    let n: usize = a.len();
    let mut out: Vec<Rational> = Vec::new();
    let mut i: usize = 0;
    while i < n
        invariant
            0 <= i <= n,
            is_binary(kind),
            n == a@.len() == b@.len(),
            rats_wf(rats_of(a@)),
            rats_wf(rats_of(b@)),
            out@.len() == i,
            forall|k: int| 0 <= k < i ==> rat_bin(kind, rats_of(a@)[k], rats_of(b@)[k]) == Ok::<
                Rat,
                Error,
            >(#[trigger] rats_of(out@)[k]) && rat_wf(rats_of(out@)[k]),
        decreases n - i,
    {
        proof {
            assert(rat_wf(rats_of(a@)[i as int]) && rats_of(a@)[i as int] == a@[i as int]@);
            assert(rat_wf(rats_of(b@)[i as int]) && rats_of(b@)[i as int] == b@[i as int]@);
        }
        match apply_bin(kind, &a[i], &b[i]) {
            Ok(v) => {
                let ghost prev = out@;
                out.push(v);
                proof {
                    assert forall|k: int| 0 <= k < i + 1 implies rat_bin(
                        kind,
                        rats_of(a@)[k],
                        rats_of(b@)[k],
                    ) == Ok::<Rat, Error>(#[trigger] rats_of(out@)[k]) && rat_wf(
                        rats_of(out@)[k],
                    ) by {
                        assert(rats_of(out@)[k] == out@[k]@);
                        if k < i {
                            assert(out@[k] == prev[k]);
                            assert(rats_of(prev)[k] == prev[k]@);
                        } else {
                            assert(out@[k] == v);
                        }
                    }
                }
            },
            Err(e) => {
                proof {
                    assert forall|k: int| 0 <= k < i implies (#[trigger] rat_bin(
                        kind,
                        rats_of(a@)[k],
                        rats_of(b@)[k],
                    )) is Ok by {
                        assert(rat_bin(kind, rats_of(a@)[k], rats_of(b@)[k]) == Ok::<Rat, Error>(
                            rats_of(out@)[k],
                        ));
                    }
                    lemma_ew_bin_err(kind, rats_of(a@), rats_of(b@), i as int, e);
                }
                return Err(e);
            },
        }
        i = i + 1;
    }
    proof {
        lemma_ew_bin_ok(kind, rats_of(a@), rats_of(b@), rats_of(out@));
    }
    Ok(out)
}

/// The elementwise negation kernel on raw value vectors.
pub(crate) fn elementwise_negate(a: &Vec<Rational>) -> (r: Result<Vec<Rational>, Error>)
    requires
        rats_wf(rats_of(a@)),
    ensures
        r matches Ok(v) ==> {
            &&& ew_neg(rats_of(a@)) == Ok::<Seq<Rat>, Error>(rats_of(v@))
            &&& rats_wf(rats_of(v@))
            &&& v@.len() == a@.len()
        },
        r matches Err(e) ==> ew_neg(rats_of(a@)) == Err::<Seq<Rat>, Error>(e),
{
    let n: usize = a.len();
    let mut out: Vec<Rational> = Vec::new();
    let mut i: usize = 0;
    while i < n
        invariant
            0 <= i <= n,
            n == a@.len(),
            rats_wf(rats_of(a@)),
            out@.len() == i,
            forall|k: int| 0 <= k < i ==> check_range(rat_neg(rats_of(a@)[k])) == Ok::<Rat, Error>(
                #[trigger] rats_of(out@)[k],
            ) && rat_wf(rats_of(out@)[k]),
        decreases n - i,
    {
        proof {
            assert(rat_wf(rats_of(a@)[i as int]) && rats_of(a@)[i as int] == a@[i as int]@);
        }
        match a[i].checked_neg() {
            Some(v) => {
                let ghost prev = out@;
                out.push(v);
                proof {
                    assert forall|k: int| 0 <= k < i + 1 implies check_range(
                        rat_neg(rats_of(a@)[k]),
                    ) == Ok::<Rat, Error>(#[trigger] rats_of(out@)[k]) && rat_wf(
                        rats_of(out@)[k],
                    ) by {
                        assert(rats_of(out@)[k] == out@[k]@);
                        if k < i {
                            assert(out@[k] == prev[k]);
                            assert(rats_of(prev)[k] == prev[k]@);
                        } else {
                            assert(out@[k] == v);
                        }
                    }
                }
            },
            None => {
                proof {
                    assert forall|k: int| 0 <= k < i implies (#[trigger] check_range(
                        rat_neg(rats_of(a@)[k]),
                    )) is Ok by {
                        assert(check_range(rat_neg(rats_of(a@)[k])) == Ok::<Rat, Error>(
                            rats_of(out@)[k],
                        ));
                    }
                    lemma_ew_neg_err(rats_of(a@), i as int, Error::Overflow);
                }
                return Err(Error::Overflow);
            },
        }
        i = i + 1;
    }
    proof {
        lemma_ew_neg_ok(rats_of(a@), rats_of(out@));
    }
    Ok(out)
}

/// The views of a sequence of shapes.
pub open spec fn shapes_of(s: Seq<Shape>) -> Seq<Seq<usize>> {
    s.map_values(|sh: Shape| sh@)
}

/// The views of a sequence of arrays.
pub open spec fn models_of(s: Seq<Array>) -> Seq<ArrayModel> {
    s.map_values(|a: Array| a@)
}

/// The shape inference rule: a constant dictates the shape of its captured
/// value, negation preserves its input shape, and a binary operation
/// requires structurally equal input shapes. Anything else, including a
/// wrong number of inputs, is a `ShapeMismatch`.
pub open spec fn shape_rule(op: OperatorModel, shapes: Seq<Seq<usize>>) -> Result<
    Seq<usize>,
    Error,
> {
    match op {
        OperatorModel::Constant(a) => if shapes.len() == 0 {
            Ok(a.shape)
        } else {
            Err(Error::ShapeMismatch)
        },
        OperatorModel::Neg => if shapes.len() == 1 {
            Ok(shapes[0])
        } else {
            Err(Error::ShapeMismatch)
        },
        _ => if shapes.len() == 2 && shapes[0] == shapes[1] {
            Ok(shapes[0])
        } else {
            Err(Error::ShapeMismatch)
        },
    }
}

/// The hardware inference rule: all inputs must resolve to the identical
/// hardware identity, and the result lives there too; a constant dictates
/// the identity of its captured value. Anything else, including a wrong
/// number of inputs, is a `HardwareMismatch`.
pub open spec fn hw_rule(op: OperatorModel, hws: Seq<u64>) -> Result<u64, Error> {
    match op {
        OperatorModel::Constant(a) => if hws.len() == 0 {
            Ok(a.hw)
        } else {
            Err(Error::HardwareMismatch)
        },
        OperatorModel::Neg => if hws.len() == 1 {
            Ok(hws[0])
        } else {
            Err(Error::HardwareMismatch)
        },
        _ => if hws.len() == 2 && hws[0] == hws[1] {
            Ok(hws[0])
        } else {
            Err(Error::HardwareMismatch)
        },
    }
}

/// The full execution rule of an operator on materialized inputs: hardware
/// is resolved first, then shapes, then the elementwise values.
pub open spec fn perform_model(op: OperatorModel, inputs: Seq<ArrayModel>) -> Result<
    ArrayModel,
    Error,
> {
    match hw_rule(op, inputs.map_values(|m: ArrayModel| m.hw)) {
        Err(e) => Err(e),
        Ok(hw) => match shape_rule(op, inputs.map_values(|m: ArrayModel| m.shape)) {
            Err(e) => Err(e),
            Ok(shape) => match op {
                OperatorModel::Constant(a) => Ok(a),
                OperatorModel::Neg => match ew_neg(inputs[0].vals) {
                    Err(e) => Err(e),
                    Ok(vals) => Ok(ArrayModel { shape, hw, vals }),
                },
                _ => match ew_bin(op_kind(op), inputs[0].vals, inputs[1].vals) {
                    Err(e) => Err(e),
                    Ok(vals) => Ok(ArrayModel { shape, hw, vals }),
                },
            },
        },
    }
}

/// One step's computation rule: a captured constant, elementwise `+`, `-`,
/// `*`, `/`, or elementwise negation.
#[derive(Debug)]
pub enum Operator {
    /// Produces a clone of its captured value; consumes no inputs.
    Constant(Array),
    /// Elementwise sum of two inputs.
    Add,
    /// Elementwise difference of two inputs.
    Sub,
    /// Elementwise product of two inputs.
    Mul,
    /// Elementwise quotient of two inputs.
    Div,
    /// Elementwise negation of one input.
    Neg,
}

impl View for Operator {
    type V = OperatorModel;

    open spec fn view(&self) -> OperatorModel {
        match self {
            Operator::Constant(a) => OperatorModel::Constant(a@),
            Operator::Add => OperatorModel::Add,
            Operator::Sub => OperatorModel::Sub,
            Operator::Mul => OperatorModel::Mul,
            Operator::Div => OperatorModel::Div,
            Operator::Neg => OperatorModel::Neg,
        }
    }
}

/// A well-formed operator captures only well-formed values.
pub open spec fn op_wf(op: OperatorModel) -> bool {
    op matches OperatorModel::Constant(a) ==> arr_wf(a)
}

/// The display name of an operator kind.
pub open spec fn kind_name(kind: OpKind) -> Seq<char> {
    match kind {
        OpKind::Constant => "Constant"@,
        OpKind::Add => "Add"@,
        OpKind::Sub => "Sub"@,
        OpKind::Mul => "Mul"@,
        OpKind::Div => "Div"@,
        OpKind::Neg => "Neg"@,
    }
}

impl Operator {
    /// A constant operator capturing `value`.
    pub fn constant(value: Array) -> (r: Operator)
        ensures
            r@ == OperatorModel::Constant(value@),
    {
        Operator::Constant(value)
    }

    /// The tag of this operator.
    pub fn kind(&self) -> (r: OpKind)
        ensures
            r == op_kind(self@),
    {
        match self {
            Operator::Constant(_) => OpKind::Constant,
            Operator::Add => OpKind::Add,
            Operator::Sub => OpKind::Sub,
            Operator::Mul => OpKind::Mul,
            Operator::Div => OpKind::Div,
            Operator::Neg => OpKind::Neg,
        }
    }

    /// The display name of this operator.
    pub fn name(&self) -> (r: &'static str)
        ensures
            r@ == kind_name(op_kind(self@)),
    {
        match self {
            Operator::Constant(_) => "Constant",
            Operator::Add => "Add",
            Operator::Sub => "Sub",
            Operator::Mul => "Mul",
            Operator::Div => "Div",
            Operator::Neg => "Neg",
        }
    }

    /// How many inputs this operator consumes.
    pub fn input_size(&self) -> (r: usize)
        ensures
            r as nat == arity(op_kind(self@)),
    {
        match self {
            Operator::Constant(_) => 0,
            Operator::Neg => 1,
            _ => 2,
        }
    }

    /// The inferred output shape for the given input shapes, per the
    /// operator's shape rule.
    pub fn perform_shape(&self, inputs: &[Shape]) -> (r: Result<Shape, Error>)
        ensures
            r matches Ok(s) ==> shape_rule(self@, shapes_of(inputs@)) == Ok::<Seq<usize>, Error>(
                s@,
            ),
            r matches Err(e) ==> shape_rule(self@, shapes_of(inputs@)) == Err::<Seq<usize>, Error>(
                e,
            ),
    {
        match self {
            Operator::Constant(a) => {
                if inputs.len() == 0 {
                    Ok(a.shape().clone())
                } else {
                    Err(Error::ShapeMismatch)
                }
            },
            Operator::Neg => {
                if inputs.len() == 1 {
                    Ok(inputs[0].clone())
                } else {
                    Err(Error::ShapeMismatch)
                }
            },
            _ => {
                if inputs.len() == 2 {
                    inputs[0].elementwise(&inputs[1])
                } else {
                    Err(Error::ShapeMismatch)
                }
            },
        }
    }

    /// The inferred hardware identity for the given input identities, per
    /// the operator's hardware rule.
    pub fn perform_hardware(&self, inputs: &[u64]) -> (r: Result<u64, Error>)
        ensures
            r matches Ok(h) ==> hw_rule(self@, inputs@) == Ok::<u64, Error>(h),
            r matches Err(e) ==> hw_rule(self@, inputs@) == Err::<u64, Error>(e),
    {
        match self {
            Operator::Constant(a) => {
                if inputs.len() == 0 {
                    Ok(a.hardware())
                } else {
                    Err(Error::HardwareMismatch)
                }
            },
            Operator::Neg => {
                if inputs.len() == 1 {
                    Ok(inputs[0])
                } else {
                    Err(Error::HardwareMismatch)
                }
            },
            _ => {
                if inputs.len() == 2 {
                    if inputs[0] == inputs[1] {
                        Ok(inputs[0])
                    } else {
                        Err(Error::HardwareMismatch)
                    }
                } else {
                    Err(Error::HardwareMismatch)
                }
            },
        }
    }

    /// Executes this operator on materialized inputs, resolving hardware
    /// first, then shapes, then the elementwise values.
    pub fn perform(&self, inputs: &[Array]) -> (r: Result<Array, Error>)
        requires
            op_wf(self@),
            forall|k: int| 0 <= k < inputs@.len() ==> arr_wf(#[trigger] inputs@[k]@),
        ensures
            r matches Ok(a) ==> perform_model(self@, models_of(inputs@)) == Ok::<ArrayModel, Error>(
                a@,
            ) && arr_wf(a@),
            r matches Err(e) ==> perform_model(self@, models_of(inputs@)) == Err::<
                ArrayModel,
                Error,
            >(e),
    {
        let ghost ms = models_of(inputs@);
        proof {
            assert(ms.map_values(|m: ArrayModel| m.hw) =~= inputs@.map_values(|a: Array| a@.hw));
            assert(ms.map_values(|m: ArrayModel| m.shape) =~= inputs@.map_values(
                |a: Array| a@.shape,
            ));
        }
        match self {
            Operator::Constant(a) => {
                if inputs.len() == 0 {
                    Ok(a.clone())
                } else {
                    Err(Error::HardwareMismatch)
                }
            },
            Operator::Neg => {
                if inputs.len() != 1 {
                    Err(Error::HardwareMismatch)
                } else {
                    match elementwise_negate(inputs[0].buffer().values_ref()) {
                        Err(e) => Err(e),
                        Ok(vals) => {
                            let out = Array::from_parts(
                                inputs[0].shape().clone(),
                                Buffer::from_values(inputs[0].hardware(), vals),
                            );
                            proof {
                                assert(perform_model(self@, ms) matches Ok(m) && m =~= out@);
                            }
                            Ok(out)
                        },
                    }
                }
            },
            _ => {
                if inputs.len() != 2 {
                    Err(Error::HardwareMismatch)
                } else if inputs[0].hardware() != inputs[1].hardware() {
                    Err(Error::HardwareMismatch)
                } else if !inputs[0].shape().equals(inputs[1].shape()) {
                    Err(Error::ShapeMismatch)
                } else {
                    match elementwise_bin(
                        self.kind(),
                        inputs[0].buffer().values_ref(),
                        inputs[1].buffer().values_ref(),
                    ) {
                        Err(e) => Err(e),
                        Ok(vals) => {
                            let out = Array::from_parts(
                                inputs[0].shape().clone(),
                                Buffer::from_values(inputs[0].hardware(), vals),
                            );
                            proof {
                                assert(perform_model(self@, ms) matches Ok(m) && m =~= out@);
                            }
                            Ok(out)
                        },
                    }
                }
            },
        }
    }
}

} // verus!
