//! The gradient engine: symbolic reverse-mode differentiation.
//!
//! `grad` walks the relevant subgraph of an output node backward, in
//! descending step order, and builds the gradient of the output with
//! respect to each requested node as ordinary new graph steps, using the
//! same arithmetic vocabulary as forward computation. Because every
//! gradient node is an ordinary node of the same graph, the result of
//! `grad` can be handed to `grad` again for higher-order derivatives.
//!
//! Gradient contributions that meet at a shared dependency are summed with
//! an ordinary `Add` step, which is what makes a value used along two
//! paths (a diamond dependency, such as `x * x`) differentiate correctly.

use vstd::prelude::*;

use crate::error::Error;
use crate::graph::{
    add_step_result, addr_valid, bin_eval, eval, extends, graph_wf, lemma_eval_congruence,
    steps_wf, step_wf, un_eval, Graph, NodeAddress, StepModel,
};
use crate::hardware::Hardware;
use crate::node::{node_in, Node};
use crate::operator::{op_kind, OpKind, Operator, OperatorModel};
use crate::rational::{rat_one, rat_zero, Rat, Rational};
use crate::shape::count_of;

verus! {

/// Step `to` is reachable from step `from` by walking input addresses
/// backward; every step reaches itself.
pub open spec fn reaches(steps: Seq<StepModel>, from: int, to: int) -> bool
    decreases from,
{
    if !(0 <= from < steps.len()) {
        false
    } else if from == to {
        true
    } else {
        exists|k: int|
            0 <= k < steps[from].inputs.len() && (#[trigger] steps[from].inputs[k]).step < from
                && reaches(steps, steps[from].inputs[k].step as int, to)
    }
}

/// Step `j` is named among the inputs of step `t`.
pub open spec fn input_of(steps: Seq<StepModel>, t: int, j: int) -> bool {
    exists|k: int|
        0 <= k < steps[t].inputs.len() && (#[trigger] steps[t].inputs[k]).step == j
}

/// The seed of reverse-mode differentiation at step `n`: dy/dy, a one for
/// every element of the step's shape.
pub open spec fn ones_seed(steps: Seq<StepModel>, n: int) -> Result<Seq<Rat>, Error> {
    Ok(Seq::new(count_of(steps[n].shape), |i: int| rat_one()))
}

/// The value-level contribution that the gradient rule of step `s` sends
/// to its `p`-th input, given the accumulated gradient value `gy` of `s`:
/// the symbolic rules of [`Operator::gradient`], with every operand
/// replaced by its evaluation. A `Constant` step has no inputs and sends
/// no contributions.
pub open spec fn contribution(
    steps: Seq<StepModel>,
    s: int,
    p: int,
    gy: Result<Seq<Rat>, Error>,
) -> Result<Seq<Rat>, Error> {
    match steps[s].op {
        OperatorModel::Constant(_) => gy,
        OperatorModel::Add => gy,
        OperatorModel::Sub => if p == 0 {
            gy
        } else {
            un_eval(gy)
        },
        OperatorModel::Neg => un_eval(gy),
        OperatorModel::Mul => if p == 0 {
            bin_eval(OpKind::Mul, gy, eval(steps, steps[s].inputs[1].step as int))
        } else {
            bin_eval(OpKind::Mul, gy, eval(steps, steps[s].inputs[0].step as int))
        },
        OperatorModel::Div => if p == 0 {
            bin_eval(OpKind::Div, gy, eval(steps, steps[s].inputs[1].step as int))
        } else {
            bin_eval(
                OpKind::Mul,
                un_eval(eval(steps, s)),
                bin_eval(OpKind::Div, gy, eval(steps, steps[s].inputs[1].step as int)),
            )
        },
    }
}

/// One accumulator slot merged with a new contribution: summed when the
/// slot is occupied, adopted when it is free.
pub open spec fn merge_into(
    m: Map<int, Result<Seq<Rat>, Error>>,
    j: int,
    c: Result<Seq<Rat>, Error>,
) -> Map<int, Result<Seq<Rat>, Error>> {
    if m.dom().contains(j) {
        m.insert(j, bin_eval(OpKind::Add, m[j], c))
    } else {
        m.insert(j, c)
    }
}

/// The accumulator after step `s` has distributed its gradient value `gy`
/// to its first `p` inputs, in order.
pub open spec fn distribute(
    steps: Seq<StepModel>,
    s: int,
    m: Map<int, Result<Seq<Rat>, Error>>,
    gy: Result<Seq<Rat>, Error>,
    p: int,
) -> Map<int, Result<Seq<Rat>, Error>>
    decreases p,
{
    if p <= 0 {
        m
    } else {
        merge_into(
            distribute(steps, s, m, gy, p - 1),
            steps[s].inputs[p - 1].step as int,
            contribution(steps, s, p - 1, gy),
        )
    }
}

/// The value-level reverse-mode accumulator, after every step index at or
/// above `idx` has been visited in descending order starting from the
/// seed at step `n`: for each step it contains, the exact value that the
/// gradient node built by `grad` evaluates to.
pub open spec fn backward(steps: Seq<StepModel>, n: int, idx: int) -> Map<
    int,
    Result<Seq<Rat>, Error>,
>
    decreases n + 1 - idx,
{
    if idx > n {
        Map::<int, Result<Seq<Rat>, Error>>::empty().insert(n, ones_seed(steps, n))
    } else {
        let m = backward(steps, n, idx + 1);
        if m.dom().contains(idx) && !(steps[idx].op is Constant) && 0 <= idx < steps.len() {
            distribute(steps, idx, m, m[idx], steps[idx].inputs.len() as int)
        } else {
            m
        }
    }
}

/// Distribution only touches slots of the distributing step's inputs.
pub proof fn lemma_distribute_dom(
    steps: Seq<StepModel>,
    s: int,
    m: Map<int, Result<Seq<Rat>, Error>>,
    gy: Result<Seq<Rat>, Error>,
    p: int,
    bound: int,
)
    requires
        forall|j: int| #[trigger] m.dom().contains(j) ==> 0 <= j <= bound,
        0 <= s <= bound,
        p <= steps[s].inputs.len(),
        forall|k: int|
            0 <= k < steps[s].inputs.len() ==> (#[trigger] steps[s].inputs[k]).step < s,
    ensures
        forall|j: int|
            #[trigger] distribute(steps, s, m, gy, p).dom().contains(j) ==> 0 <= j <= bound,
    decreases p,
{
    if p > 0 {
        lemma_distribute_dom(steps, s, m, gy, p - 1, bound);
        let prev = distribute(steps, s, m, gy, p - 1);
        let tgt = steps[s].inputs[p - 1].step as int;
        assert(steps[s].inputs[p - 1].step < s);
        assert(distribute(steps, s, m, gy, p) == merge_into(
            prev,
            tgt,
            contribution(steps, s, p - 1, gy),
        ));
        assert forall|j: int|
            #[trigger] distribute(steps, s, m, gy, p).dom().contains(j) implies 0 <= j
            <= bound by {
            if j != tgt {
                assert(prev.dom().contains(j));
            }
        }
    }
}

/// The accumulator only ever holds slots at or below the seed step.
pub proof fn lemma_backward_dom(steps: Seq<StepModel>, n: int, idx: int)
    requires
        steps_wf(steps),
        0 <= n < steps.len(),
    ensures
        forall|j: int| #[trigger] backward(steps, n, idx).dom().contains(j) ==> 0 <= j <= n,
    decreases n + 1 - idx,
{
    if idx <= n {
        lemma_backward_dom(steps, n, idx + 1);
        let m = backward(steps, n, idx + 1);
        if m.dom().contains(idx) && !(steps[idx].op is Constant) && 0 <= idx < steps.len() {
            assert(step_wf(steps, idx));
            lemma_distribute_dom(steps, idx, m, m[idx], steps[idx].inputs.len() as int, n);
        }
    }
}

/// Reachable steps lie at or before the starting step.
pub proof fn lemma_reaches_le(steps: Seq<StepModel>, from: int, to: int)
    requires
        reaches(steps, from, to),
    ensures
        0 <= to <= from,
        to < steps.len(),
    decreases from,
{
    if from != to {
        let k = choose|k: int|
            0 <= k < steps[from].inputs.len() && (#[trigger] steps[from].inputs[k]).step < from
                && reaches(steps, steps[from].inputs[k].step as int, to);
        lemma_reaches_le(steps, steps[from].inputs[k].step as int, to);
    }
}

/// A strictly reachable step is named as an input by some step that is
/// itself reachable.
pub proof fn lemma_reaches_last_hop(steps: Seq<StepModel>, from: int, to: int)
    requires
        reaches(steps, from, to),
        from != to,
    ensures
        exists|t: int|
            #![trigger reaches(steps, from, t)]
            to < t <= from && reaches(steps, from, t) && input_of(steps, t, to),
    decreases from,
{
    let k = choose|k: int|
        0 <= k < steps[from].inputs.len() && (#[trigger] steps[from].inputs[k]).step < from
            && reaches(steps, steps[from].inputs[k].step as int, to);
    let mid = steps[from].inputs[k].step as int;
    if mid == to {
        assert(reaches(steps, from, from));
        assert(input_of(steps, from, to)) by {
            assert((#[trigger] steps[from].inputs[k]).step == to);
        }
        lemma_reaches_le(steps, mid, to);
        assert(to < from <= from && reaches(steps, from, from) && input_of(steps, from, to));
    } else {
        lemma_reaches_last_hop(steps, mid, to);
        let t = choose|t: int|
            #![trigger reaches(steps, mid, t)]
            to < t <= mid && reaches(steps, mid, t) && input_of(steps, t, to);
        assert(reaches(steps, from, t)) by {
            assert((#[trigger] steps[from].inputs[k]).step < from && reaches(steps, mid, t));
        }
        assert(to < t <= from && reaches(steps, from, t) && input_of(steps, t, to));
    }
}

/// Distribution never removes a slot.
pub proof fn lemma_distribute_keeps(
    steps: Seq<StepModel>,
    s: int,
    m: Map<int, Result<Seq<Rat>, Error>>,
    gy: Result<Seq<Rat>, Error>,
    p: int,
)
    ensures
        forall|j: int|
            m.dom().contains(j) ==> #[trigger] distribute(steps, s, m, gy, p).dom().contains(j),
    decreases p,
{
    if p > 0 {
        lemma_distribute_keeps(steps, s, m, gy, p - 1);
        assert forall|j: int| m.dom().contains(j) implies #[trigger] distribute(
            steps,
            s,
            m,
            gy,
            p,
        ).dom().contains(j) by {
            assert(distribute(steps, s, m, gy, p - 1).dom().contains(j));
        }
    }
}

/// Distribution gives every one of the first `p` inputs a slot.
pub proof fn lemma_distribute_covers(
    steps: Seq<StepModel>,
    s: int,
    m: Map<int, Result<Seq<Rat>, Error>>,
    gy: Result<Seq<Rat>, Error>,
    p: int,
)
    ensures
        forall|k: int|
            0 <= k < p && k < steps[s].inputs.len() ==> distribute(
                steps,
                s,
                m,
                gy,
                p,
            ).dom().contains((#[trigger] steps[s].inputs[k]).step as int),
    decreases p,
{
    if p > 0 {
        lemma_distribute_covers(steps, s, m, gy, p - 1);
    }
}

/// Walking further down never removes a slot from the accumulator.
pub proof fn lemma_backward_monotone(steps: Seq<StepModel>, n: int, idx1: int, idx2: int)
    requires
        idx1 <= idx2,
    ensures
        forall|j: int|
            backward(steps, n, idx2).dom().contains(j) ==> #[trigger] backward(
                steps,
                n,
                idx1,
            ).dom().contains(j),
    decreases idx2 - idx1,
{
    if idx1 < idx2 {
        lemma_backward_monotone(steps, n, idx1 + 1, idx2);
        let m = backward(steps, n, idx1 + 1);
        if m.dom().contains(idx1) && !(steps[idx1].op is Constant) && 0 <= idx1 < steps.len() {
            lemma_distribute_keeps(steps, idx1, m, m[idx1], steps[idx1].inputs.len() as int);
        }
    }
}

/// Completeness of the reverse-mode walk: every step reachable from the
/// seed step eventually holds an accumulated gradient.
pub proof fn lemma_backward_complete(steps: Seq<StepModel>, n: int, j: int, idx: int)
    requires
        steps_wf(steps),
        0 <= n < steps.len(),
        reaches(steps, n, j),
        idx <= j + 1,
    ensures
        backward(steps, n, idx).dom().contains(j),
    decreases n - j,
{
    lemma_reaches_le(steps, n, j);
    if j == n {
        lemma_backward_monotone(steps, n, idx, n + 1);
        assert(backward(steps, n, n + 1).dom().contains(n));
    } else {
        lemma_reaches_last_hop(steps, n, j);
        let t = choose|t: int|
            #![trigger reaches(steps, n, t)]
            j < t <= n && reaches(steps, n, t) && input_of(steps, t, j);
        lemma_backward_complete(steps, n, t, t + 1);
        assert(step_wf(steps, t));
        let k = choose|k: int|
            0 <= k < steps[t].inputs.len() && (#[trigger] steps[t].inputs[k]).step == j;
        assert(steps[t].op !is Constant) by {
            match steps[t].op {
                OperatorModel::Constant(_) => {
                    assert(steps[t].inputs.len() == 0);
                    assert(false);
                },
                _ => {
                },
            }
        }
        let m = backward(steps, n, t + 1);
        assert(backward(steps, n, t) == distribute(steps, t, m, m[t], steps[t].inputs.len() as int));
        lemma_distribute_covers(steps, t, m, m[t], steps[t].inputs.len() as int);
        assert(backward(steps, n, t).dom().contains(j)) by {
            assert(distribute(steps, t, m, m[t], steps[t].inputs.len() as int).dom().contains((
            #[trigger] steps[t].inputs[k]).step as int));
        }
        lemma_backward_monotone(steps, n, idx, t);
    }
}

/// Whatever a reachable step names as an input is reachable too.
pub proof fn lemma_reaches_via_input(steps: Seq<StepModel>, from: int, t: int, j: int)
    requires
        reaches(steps, from, t),
        input_of(steps, t, j),
        forall|k: int|
            0 <= k < steps[t].inputs.len() ==> (#[trigger] steps[t].inputs[k]).step < t,
    ensures
        reaches(steps, from, j),
    decreases from,
{
    if from == t {
        let k = choose|k: int|
            0 <= k < steps[t].inputs.len() && (#[trigger] steps[t].inputs[k]).step == j;
        assert(0 <= j < steps.len() && j < from) by {
            assert(steps[t].inputs[k].step < t);
        }
        assert(reaches(steps, j, j));
        assert((#[trigger] steps[from].inputs[k]).step < from && reaches(
            steps,
            steps[from].inputs[k].step as int,
            j,
        ));
    } else {
        let k = choose|k: int|
            0 <= k < steps[from].inputs.len() && (#[trigger] steps[from].inputs[k]).step < from
                && reaches(steps, steps[from].inputs[k].step as int, t);
        lemma_reaches_via_input(steps, steps[from].inputs[k].step as int, t, j);
        assert((#[trigger] steps[from].inputs[k]).step < from && reaches(
            steps,
            steps[from].inputs[k].step as int,
            j,
        ));
    }
}

/// A binary step over two existing addresses with equal shapes and equal
/// hardware identities is always accepted.
proof fn lemma_binary_ready(
    steps: Seq<StepModel>,
    opm: OperatorModel,
    a: NodeAddress,
    b: NodeAddress,
)
    requires
        crate::operator::is_binary(op_kind(opm)),
        addr_valid(steps, a),
        addr_valid(steps, b),
        steps[a.step as int].shape == steps[b.step as int].shape,
        steps[a.step as int].hw == steps[b.step as int].hw,
    ensures
        add_step_result(steps, opm, seq![a, b]) is Ok,
{
    let addrs = seq![a, b];
    assert forall|k: int| 0 <= k < addrs.len() implies addr_valid(
        steps,
        #[trigger] addrs[k],
    ) by {
        if k == 0 {
            assert(addrs[k] == a);
        } else {
            assert(addrs[k] == b);
        }
    }
    assert(crate::graph::input_hws(steps, addrs).len() == 2);
    assert(crate::graph::input_hws(steps, addrs)[0] == steps[a.step as int].hw);
    assert(crate::graph::input_hws(steps, addrs)[1] == steps[b.step as int].hw);
    assert(crate::graph::input_shapes(steps, addrs).len() == 2);
    assert(crate::graph::input_shapes(steps, addrs)[0] == steps[a.step as int].shape);
    assert(crate::graph::input_shapes(steps, addrs)[1] == steps[b.step as int].shape);
    assert(opm !is Constant && opm !is Neg);
}

impl Operator {
    /// The symbolic gradient rule of this operator.
    ///
    /// `x` holds the operator's own input nodes, `y` its output node, and
    /// `gy` the gradient of the overall output with respect to `y`; all
    /// must name steps of `graph`, with `gy` of the same shape and
    /// hardware as `y`. One new gradient node per input is returned,
    /// expressed as ordinary graph arithmetic, which is why gradients can
    /// themselves be differentiated:
    ///
    /// - `Add`: `[gy, gy]`
    /// - `Sub`: `[gy, -gy]`
    /// - `Mul`: `[gy * x[1], gy * x[0]]`
    /// - `Div`: `[gy / x[1], -y * (gy / x[1])]`
    /// - `Neg`: `[-gy]`
    #[verifier::rlimit(50)]
    pub fn gradient(&self, graph: &mut Graph, x: &[Node], y: Node, gy: Node) -> (r: Result<
        Vec<Node>,
        Error,
    >)
        requires
            graph_wf(old(graph)@),
            op_kind(self@) != OpKind::Constant,
            y.graph_id == old(graph)@.id,
            addr_valid(old(graph)@.steps, y.address),
            old(graph)@.steps[y.address.step as int].op == self@,
            x@.len() == old(graph)@.steps[y.address.step as int].inputs.len(),
            forall|k: int|
                0 <= k < x@.len() ==> (#[trigger] x@[k]).graph_id == old(graph)@.id
                    && x@[k].address == old(graph)@.steps[y.address.step as int].inputs[k],
            gy.graph_id == old(graph)@.id,
            addr_valid(old(graph)@.steps, gy.address),
            old(graph)@.steps[gy.address.step as int].shape == old(graph)@.steps[y.address.step
                as int].shape,
            old(graph)@.steps[gy.address.step as int].hw == old(graph)@.steps[y.address.step
                as int].hw,
        ensures
            graph_wf(final(graph)@),
            extends(final(graph)@, old(graph)@),
            r is Ok,
            r matches Ok(gxs) ==> {
                &&& gxs@.len() == x@.len()
                &&& forall|k: int|
                    0 <= k < gxs@.len() ==> {
                        let nd = #[trigger] gxs@[k];
                        &&& nd.graph_id == old(graph)@.id
                        &&& addr_valid(final(graph)@.steps, nd.address)
                        &&& nd.address.output == 0
                        &&& final(graph)@.steps[nd.address.step as int].shape == old(
                            graph,
                        )@.steps[y.address.step as int].shape
                        &&& final(graph)@.steps[nd.address.step as int].hw == old(
                            graph,
                        )@.steps[y.address.step as int].hw
                    }
                &&& (self@ == OperatorModel::Add ==> gxs@ == seq![gy, gy])
                &&& (self@ == OperatorModel::Sub ==> gxs@[0] == gy && eval(
                    final(graph)@.steps,
                    gxs@[1].address.step as int,
                ) == un_eval(eval(old(graph)@.steps, gy.address.step as int)))
                &&& (self@ == OperatorModel::Neg ==> eval(
                    final(graph)@.steps,
                    gxs@[0].address.step as int,
                ) == un_eval(eval(old(graph)@.steps, gy.address.step as int)))
                &&& (self@ == OperatorModel::Mul ==> eval(
                    final(graph)@.steps,
                    gxs@[0].address.step as int,
                ) == bin_eval(
                    OpKind::Mul,
                    eval(old(graph)@.steps, gy.address.step as int),
                    eval(old(graph)@.steps, x@[1].address.step as int),
                ) && eval(final(graph)@.steps, gxs@[1].address.step as int) == bin_eval(
                    OpKind::Mul,
                    eval(old(graph)@.steps, gy.address.step as int),
                    eval(old(graph)@.steps, x@[0].address.step as int),
                ))
                &&& (self@ == OperatorModel::Div ==> eval(
                    final(graph)@.steps,
                    gxs@[0].address.step as int,
                ) == bin_eval(
                    OpKind::Div,
                    eval(old(graph)@.steps, gy.address.step as int),
                    eval(old(graph)@.steps, x@[1].address.step as int),
                ) && eval(final(graph)@.steps, gxs@[1].address.step as int) == bin_eval(
                    OpKind::Mul,
                    un_eval(eval(old(graph)@.steps, y.address.step as int)),
                    bin_eval(
                        OpKind::Div,
                        eval(old(graph)@.steps, gy.address.step as int),
                        eval(old(graph)@.steps, x@[1].address.step as int),
                    ),
                ))
            },
    {
        let ghost steps0 = old(graph)@.steps;
        let ghost ystep = y.address.step as int;
        proof {
            assert(step_wf(steps0, ystep));
        }
        let kind = self.kind();
        match kind {
            OpKind::Constant => {
                proof {
                    assert(false);
                }
                vstd::pervasive::unreached()
            },
            OpKind::Add => {
                let mut out: Vec<Node> = Vec::new();
                out.push(gy);
                out.push(gy);
                proof {
                    assert(out@ =~= seq![gy, gy]);
                }
                Ok(out)
            },
            OpKind::Neg => {
                let g0 = match gy.neg(graph) {
                    Ok(n) => n,
                    Err(_) => {
                        proof {
                            assert(false);
                        }
                        vstd::pervasive::unreached()
                    },
                };
                let mut out: Vec<Node> = Vec::new();
                out.push(g0);
                proof {
                    assert(out@ =~= seq![g0]);
                }
                Ok(out)
            },
            OpKind::Sub => {
                let g1 = match gy.neg(graph) {
                    Ok(n) => n,
                    Err(_) => {
                        proof {
                            assert(false);
                        }
                        vstd::pervasive::unreached()
                    },
                };
                let mut out: Vec<Node> = Vec::new();
                out.push(gy);
                out.push(g1);
                proof {
                    assert(out@ =~= seq![gy, g1]);
                }
                Ok(out)
            },
            OpKind::Mul => {
                proof {
                    assert(x@[1].address == steps0[ystep].inputs[1]);
                    assert(addr_valid(steps0, x@[1].address));
                    assert(steps0[x@[1].address.step as int].shape == steps0[ystep].shape);
                    lemma_binary_ready(
                        steps0,
                        OperatorModel::Mul,
                        gy.address,
                        x@[1].address,
                    );
                }
                let g0 = match gy.mul(x[1], graph) {
                    Ok(n) => n,
                    Err(_) => {
                        proof {
                            assert(false);
                        }
                        vstd::pervasive::unreached()
                    },
                };
                let ghost mid = graph@;
                proof {
                    assert(x@[0].address == steps0[ystep].inputs[0]);
                    assert(addr_valid(steps0, x@[0].address));
                    assert(steps0[x@[0].address.step as int].shape == steps0[ystep].shape);
                    assert(mid.steps[gy.address.step as int] == steps0[gy.address.step as int]);
                    assert(mid.steps[x@[0].address.step as int] == steps0[x@[0].address.step
                        as int]);
                    lemma_binary_ready(
                        mid.steps,
                        OperatorModel::Mul,
                        gy.address,
                        x@[0].address,
                    );
                }
                let g1 = match gy.mul(x[0], graph) {
                    Ok(n) => n,
                    Err(_) => {
                        proof {
                            assert(false);
                        }
                        vstd::pervasive::unreached()
                    },
                };
                let mut out: Vec<Node> = Vec::new();
                out.push(g0);
                out.push(g1);
                proof {
                    assert(out@ =~= seq![g0, g1]);
                    lemma_eval_congruence(steps0, mid.steps, gy.address.step as int);
                    lemma_eval_congruence(steps0, mid.steps, x@[1].address.step as int);
                    lemma_eval_congruence(steps0, mid.steps, x@[0].address.step as int);
                    lemma_eval_congruence(mid.steps, final(graph)@.steps, gy.address.step as int);
                    lemma_eval_congruence(
                        mid.steps,
                        final(graph)@.steps,
                        x@[0].address.step as int,
                    );
                    lemma_eval_congruence(mid.steps, final(graph)@.steps, g0.address.step as int);
                }
                Ok(out)
            },
            OpKind::Div => {
                proof {
                    assert(x@[1].address == steps0[ystep].inputs[1]);
                    assert(addr_valid(steps0, x@[1].address));
                    assert(steps0[x@[1].address.step as int].shape == steps0[ystep].shape);
                    lemma_binary_ready(
                        steps0,
                        OperatorModel::Div,
                        gy.address,
                        x@[1].address,
                    );
                }
                let g0 = match gy.div(x[1], graph) {
                    Ok(n) => n,
                    Err(_) => {
                        proof {
                            assert(false);
                        }
                        vstd::pervasive::unreached()
                    },
                };
                let ghost mid1 = graph@;
                let ny = match y.neg(graph) {
                    Ok(n) => n,
                    Err(_) => {
                        proof {
                            assert(false);
                        }
                        vstd::pervasive::unreached()
                    },
                };
                let ghost mid2 = graph@;
                proof {
                    assert(mid2.steps[ny.address.step as int].shape == steps0[ystep].shape);
                    assert(mid2.steps[g0.address.step as int].shape == steps0[ystep].shape);
                    assert(mid2.steps[ny.address.step as int].hw == steps0[ystep].hw);
                    assert(mid2.steps[g0.address.step as int].hw == steps0[ystep].hw);
                    lemma_binary_ready(
                        mid2.steps,
                        OperatorModel::Mul,
                        ny.address,
                        g0.address,
                    );
                }
                let g1 = match ny.mul(g0, graph) {
                    Ok(n) => n,
                    Err(_) => {
                        proof {
                            assert(false);
                        }
                        vstd::pervasive::unreached()
                    },
                };
                let mut out: Vec<Node> = Vec::new();
                out.push(g0);
                out.push(g1);
                proof {
                    assert(out@ =~= seq![g0, g1]);
                    lemma_eval_congruence(steps0, mid1.steps, gy.address.step as int);
                    lemma_eval_congruence(steps0, mid1.steps, x@[1].address.step as int);
                    lemma_eval_congruence(steps0, mid1.steps, y.address.step as int);
                    lemma_eval_congruence(mid1.steps, mid2.steps, y.address.step as int);
                    lemma_eval_congruence(mid2.steps, final(graph)@.steps, ny.address.step as int);
                    lemma_eval_congruence(mid2.steps, final(graph)@.steps, g0.address.step as int);
                    lemma_eval_congruence(mid1.steps, mid2.steps, g0.address.step as int);
                }
                Ok(out)
            },
        }
    }
}

/// Reverse-mode differentiation: the gradient of `y` with respect to each
/// node in `xs`, in the caller's order, duplicates preserved.
///
/// The graph is walked once, in descending step order starting at `y`'s
/// step. An accumulator maps step indices to gradient nodes; it is seeded
/// at `y`'s step with a ones-filled constant (`dy/dy == 1`). Each visited
/// step with an accumulated gradient applies its operator's symbolic
/// gradient rule, and each contribution is combined into the input's
/// accumulator slot — added to it with an ordinary `Add` step when the
/// slot is already occupied, which is what sums gradients at diamond
/// dependencies. A requested node whose step was never reached gets a
/// freshly appended zero-filled constant of its own shape and hardware.
///
/// Every produced node lives in the same graph, so `grad` applied to a
/// gradient node differentiates through the backward computation itself,
/// yielding higher-order derivatives with no special casing. `grad` never
/// executes an operator: value-level failures surface only when a
/// produced node is eventually calculated.
pub fn grad(graph: &mut Graph, y: Node, xs: &[Node]) -> (r: Result<Vec<Node>, Error>)
    requires
        graph_wf(old(graph)@),
    ensures
        graph_wf(final(graph)@),
        r is Ok <==> node_in(y, old(graph)@) && (forall|k: int|
            0 <= k < xs@.len() ==> node_in(#[trigger] xs@[k], old(graph)@)),
        r matches Err(e) ==> e == Error::InvalidGraph && final(graph)@ == old(graph)@,
        r matches Ok(gxs) ==> {
            &&& extends(final(graph)@, old(graph)@)
            &&& gxs@.len() == xs@.len()
            &&& forall|k: int|
                0 <= k < gxs@.len() ==> {
                    let nd = #[trigger] gxs@[k];
                    &&& nd.graph_id == old(graph)@.id
                    &&& nd.address.output == 0
                    &&& addr_valid(final(graph)@.steps, nd.address)
                    &&& final(graph)@.steps[nd.address.step as int].shape == old(
                        graph,
                    )@.steps[xs@[k].address.step as int].shape
                    &&& final(graph)@.steps[nd.address.step as int].hw == old(
                        graph,
                    )@.steps[xs@[k].address.step as int].hw
                }
            &&& forall|k: int|
                0 <= k < gxs@.len() && xs@[k].address == y.address ==> eval(
                    final(graph)@.steps,
                    (#[trigger] gxs@[k]).address.step as int,
                ) == Ok::<Seq<Rat>, Error>(
                    Seq::new(
                        count_of(old(graph)@.steps[y.address.step as int].shape),
                        |i: int| rat_one(),
                    ),
                )
            &&& forall|k: int|
                0 <= k < gxs@.len() && !reaches(
                    old(graph)@.steps,
                    y.address.step as int,
                    xs@[k].address.step as int,
                ) ==> eval(final(graph)@.steps, (#[trigger] gxs@[k]).address.step as int) == Ok::<
                    Seq<Rat>,
                    Error,
                >(
                    Seq::new(
                        count_of(old(graph)@.steps[xs@[k].address.step as int].shape),
                        |i: int| rat_zero(),
                    ),
                )
            &&& forall|k: int|
                0 <= k < gxs@.len() ==> {
                    let bw = backward(old(graph)@.steps, y.address.step as int, 0);
                    let av = xs@[k].address.step as int;
                    &&& (bw.dom().contains(av) ==> eval(
                        final(graph)@.steps,
                        (#[trigger] gxs@[k]).address.step as int,
                    ) == bw[av])
                    &&& (!bw.dom().contains(av) ==> eval(
                        final(graph)@.steps,
                        gxs@[k].address.step as int,
                    ) == Ok::<Seq<Rat>, Error>(
                        Seq::new(
                            count_of(old(graph)@.steps[av].shape),
                            |i: int| rat_zero(),
                        ),
                    ))
                    &&& (reaches(old(graph)@.steps, y.address.step as int, av)
                        ==> bw.dom().contains(av))
                }
        },
{
    let ghost g0 = old(graph)@;
    let ghost osteps = g0.steps;
    let ghost gid = g0.id;
    let total: usize = graph.num_steps();
    if y.graph_id != graph.id() || y.address.step >= total || y.address.output != 0 {
        return Err(Error::InvalidGraph);
    }
    let m: usize = xs.len();
    let mut k: usize = 0;
    while k < m
        invariant
            0 <= k <= m,
            m == xs@.len(),
            graph@ == g0,
            total == osteps.len(),
            g0.steps == osteps,
            g0.id == gid,
            graph_wf(g0),
            forall|t: int| 0 <= t < k ==> node_in(#[trigger] xs@[t], g0),
        decreases m - k,
    {
        let xk = xs[k];
        if xk.graph_id != graph.id() || xk.address.step >= total || xk.address.output != 0 {
            return Err(Error::InvalidGraph);
        }
        k = k + 1;
    }
    let n: usize = y.address.step;
    // Seed the accumulator at y's step with dy/dy == 1.
    let (yshape, yhw) = match graph.get_step(n) {
        Some(st) => (st.shape.clone(), st.hardware),
        None => {
            proof {
                assert(false);
            }
            vstd::pervasive::unreached()
        },
    };
    let hw = Hardware::new(yhw);
    let seed = match Node::fill(&hw, graph, yshape, Rational::from_int(1)) {
        Ok(nd) => nd,
        Err(_) => {
            proof {
                assert(step_wf(osteps, n as int));
                assert(false);
            }
            vstd::pervasive::unreached()
        },
    };
    let ghost ones = Seq::new(count_of(osteps[n as int].shape), |i: int| rat_one());
    let ghost seed_arr = graph@.steps[seed.address.step as int].op->Constant_0;
    proof {
        assert(seed_arr.vals =~= ones);
    }
    let cap: usize = n + 1;
    let mut acc: Vec<Option<Node>> = Vec::new();
    let mut i: usize = 0;
    while i < cap
        invariant
            0 <= i <= cap,
            acc@.len() == i,
            forall|j: int| 0 <= j < i ==> (#[trigger] acc@[j]) is None,
        decreases cap - i,
    {
        acc.push(None);
        i = i + 1;
    }
    acc.set(n, Some(seed));
    proof {
        assert(backward(osteps, n as int, (n + 1) as int) == Map::<
            int,
            Result<Seq<Rat>, Error>,
        >::empty().insert(n as int, ones_seed(osteps, n as int)));
        assert(eval(graph@.steps, seed.address.step as int) == Ok::<Seq<Rat>, Error>(ones));
        assert(ones_seed(osteps, n as int) == Ok::<Seq<Rat>, Error>(ones));
    }
    // Visit step indices in descending order starting at y's step. Each
    // index that carries an accumulated gradient propagates it to its
    // inputs through the operator's symbolic gradient rule. The loop keeps
    // each accumulator slot's evaluation equal to the value-level model
    // [`backward`] of the steps already visited.
    let mut idx: usize = n + 1;
    while idx > 0
        invariant
            0 <= idx <= n + 1,
            n == y.address.step,
            n < osteps.len(),
            g0.steps == osteps,
            g0.id == gid,
            graph_wf(g0),
            graph_wf(graph@),
            graph@.id == gid,
            extends(graph@, g0),
            acc@.len() == n + 1,
            acc@[n as int] == Some(seed),
            seed.graph_id == gid,
            seed.address.output == 0,
            addr_valid(graph@.steps, seed.address),
            graph@.steps[seed.address.step as int].op == OperatorModel::Constant(seed_arr),
            graph@.steps[seed.address.step as int].shape == osteps[n as int].shape,
            graph@.steps[seed.address.step as int].hw == osteps[n as int].hw,
            seed_arr.vals == ones,
            forall|j: int|
                0 <= j <= n ==> ((#[trigger] acc@[j]) matches Some(nd) ==> {
                    &&& reaches(osteps, n as int, j)
                    &&& nd.graph_id == gid
                    &&& nd.address.output == 0
                    &&& addr_valid(graph@.steps, nd.address)
                    &&& graph@.steps[nd.address.step as int].shape == osteps[j].shape
                    &&& graph@.steps[nd.address.step as int].hw == osteps[j].hw
                }),
            forall|j: int|
                0 <= j <= n ==> ((#[trigger] acc@[j]) is Some <==> backward(
                    osteps,
                    n as int,
                    idx as int,
                ).dom().contains(j)),
            forall|j: int|
                0 <= j <= n ==> ((#[trigger] acc@[j]) matches Some(nd) ==> eval(
                    graph@.steps,
                    nd.address.step as int,
                ) == backward(osteps, n as int, idx as int)[j]),
        decreases idx,
    {
        idx = idx - 1;
        let s = idx;
        let ghost mprev = backward(osteps, n as int, (s + 1) as int);
        let entry: Option<Node> = acc[s];
        if entry.is_none() {
            proof {
                assert(!mprev.dom().contains(s as int));
                assert(backward(osteps, n as int, s as int) == mprev);
            }
        }
        if let Some(gys) = entry {
            proof {
                assert(acc@[s as int] matches Some(nd) && nd == gys);
                assert(step_wf(osteps, s as int));
                assert(mprev.dom().contains(s as int));
            }
            let kind = match graph.get_step(s) {
                Some(st) => st.operator.kind(),
                None => {
                    proof {
                        assert(false);
                    }
                    vstd::pervasive::unreached()
                },
            };
            if kind != OpKind::Constant {
                let op = match kind {
                    OpKind::Add => Operator::Add,
                    OpKind::Sub => Operator::Sub,
                    OpKind::Mul => Operator::Mul,
                    OpKind::Div => Operator::Div,
                    OpKind::Neg => Operator::Neg,
                    OpKind::Constant => {
                        proof {
                            assert(false);
                        }
                        vstd::pervasive::unreached()
                    },
                };
                proof {
                    assert(graph@.steps[s as int] == osteps[s as int]);
                    match osteps[s as int].op {
                        OperatorModel::Constant(_) => {
                            assert(false);
                        },
                        _ => {
                        },
                    }
                    assert(op@ == osteps[s as int].op);
                }
                let count_in = match graph.get_step(s) {
                    Some(st) => st.inputs.len(),
                    None => {
                        proof {
                            assert(false);
                        }
                        vstd::pervasive::unreached()
                    },
                };
                let ghost gyv = mprev[s as int];
                proof {
                    assert(eval(graph@.steps, gys.address.step as int) == gyv);
                }
                let mut xn: Vec<Node> = Vec::new();
                let mut q: usize = 0;
                while q < count_in
                    invariant
                        0 <= q <= count_in,
                        s < osteps.len(),
                        count_in == osteps[s as int].inputs.len(),
                        graph@.id == gid,
                        graph@.steps[s as int] == osteps[s as int],
                        s < graph@.steps.len(),
                        xn@.len() == q,
                        forall|p: int|
                            0 <= p < q ==> (#[trigger] xn@[p]).graph_id == gid && xn@[p].address
                                == osteps[s as int].inputs[p],
                    decreases count_in - q,
                {
                    let a = match graph.get_step(s) {
                        Some(st) => st.inputs[q],
                        None => {
                            proof {
                                assert(false);
                            }
                            vstd::pervasive::unreached()
                        },
                    };
                    xn.push(Node { graph_id: graph.id(), address: a });
                    q = q + 1;
                }
                let ynode = Node { graph_id: graph.id(), address: NodeAddress { step: s, output: 0 } };
                let ghost pre = graph@;
                proof {
                    assert forall|p: int| 0 <= p < xn@.len() implies (#[trigger] xn@[p]).graph_id
                        == pre.id && xn@[p].address == pre.steps[ynode.address.step
                        as int].inputs[p] by {}
                    assert(addr_valid(pre.steps, gys.address));
                    assert(pre.steps[gys.address.step as int].shape == pre.steps[s as int].shape);
                    assert(pre.steps[gys.address.step as int].hw == pre.steps[s as int].hw);
                }
                let gxs = match op.gradient(graph, xn.as_slice(), ynode, gys) {
                    Ok(v) => v,
                    Err(_) => {
                        proof {
                            assert(false);
                        }
                        vstd::pervasive::unreached()
                    },
                };
                proof {
                    // The accumulator entries keep their evaluations across
                    // the steps the gradient rule appended.
                    assert forall|j: int|
                        0 <= j <= n implies ((#[trigger] acc@[j]) matches Some(nd) ==> eval(
                        graph@.steps,
                        nd.address.step as int,
                    ) == mprev[j]) by {
                        if acc@[j] is Some {
                            let nd = acc@[j]->Some_0;
                            lemma_eval_congruence(pre.steps, graph@.steps, nd.address.step as int);
                        }
                    }
                    assert(acc@[s as int] matches Some(nd0) && nd0 == gys);
                    assert(eval(graph@.steps, gys.address.step as int) == gyv);
                    lemma_eval_congruence(osteps, pre.steps, osteps[s as int].inputs[0].step
                        as int);
                    if count_in == 2 {
                        lemma_eval_congruence(osteps, pre.steps, osteps[s as int].inputs[1].step
                            as int);
                    }
                    lemma_eval_congruence(osteps, pre.steps, s as int);
                    // Each fresh gradient node evaluates to its rule's
                    // value-level contribution.
                    assert forall|t: int| 0 <= t < count_in implies eval(
                        graph@.steps,
                        (#[trigger] gxs@[t]).address.step as int,
                    ) == contribution(osteps, s as int, t, gyv) by {
                        match osteps[s as int].op {
                            OperatorModel::Constant(_) => {
                                assert(false);
                            },
                            OperatorModel::Add => {
                                assert(gxs@[t] == gys);
                            },
                            OperatorModel::Sub => {
                                if t == 0 {
                                    assert(gxs@[0] == gys);
                                }
                            },
                            OperatorModel::Neg => {
                            },
                            OperatorModel::Mul => {
                            },
                            OperatorModel::Div => {
                            },
                        }
                    }
                }
                // Combine each contribution into its input's accumulator
                // slot, summing when the slot is already occupied.
                let mut p: usize = 0;
                while p < count_in
                    invariant
                        0 <= p <= count_in,
                        n == y.address.step,
                        n < osteps.len(),
                        g0.steps == osteps,
                        g0.id == gid,
                        graph_wf(g0),
                        graph_wf(graph@),
                        graph@.id == gid,
                        extends(graph@, g0),
                        s <= n,
                        reaches(osteps, n as int, s as int),
                        step_wf(osteps, s as int),
                        count_in == osteps[s as int].inputs.len(),
                        xn@.len() == count_in,
                        forall|t: int|
                            0 <= t < count_in ==> (#[trigger] xn@[t]).graph_id == gid
                                && xn@[t].address == osteps[s as int].inputs[t],
                        gxs@.len() == count_in,
                        forall|t: int|
                            0 <= t < count_in ==> {
                                let nd = #[trigger] gxs@[t];
                                &&& nd.graph_id == gid
                                &&& nd.address.output == 0
                                &&& addr_valid(graph@.steps, nd.address)
                                &&& graph@.steps[nd.address.step as int].shape == osteps[s
                                    as int].shape
                                &&& graph@.steps[nd.address.step as int].hw == osteps[s as int].hw
                            },
                        acc@.len() == n + 1,
                        acc@[n as int] == Some(seed),
                        seed.graph_id == gid,
                        seed.address.output == 0,
                        addr_valid(graph@.steps, seed.address),
                        graph@.steps[seed.address.step as int].op == OperatorModel::Constant(
                            seed_arr,
                        ),
                        graph@.steps[seed.address.step as int].shape == osteps[n as int].shape,
                        graph@.steps[seed.address.step as int].hw == osteps[n as int].hw,
                        forall|j: int|
                            0 <= j <= n ==> ((#[trigger] acc@[j]) matches Some(nd) ==> {
                                &&& reaches(osteps, n as int, j)
                                &&& nd.graph_id == gid
                                &&& nd.address.output == 0
                                &&& addr_valid(graph@.steps, nd.address)
                                &&& graph@.steps[nd.address.step as int].shape == osteps[j].shape
                                &&& graph@.steps[nd.address.step as int].hw == osteps[j].hw
                            }),
                        mprev == backward(osteps, n as int, (s + 1) as int),
                        mprev.dom().contains(s as int),
                        gyv == mprev[s as int],
                        osteps[s as int].op !is Constant,
                        forall|j: int|
                            0 <= j <= n ==> ((#[trigger] acc@[j]) is Some <==> distribute(
                                osteps,
                                s as int,
                                mprev,
                                gyv,
                                p as int,
                            ).dom().contains(j)),
                        forall|j: int|
                            0 <= j <= n ==> ((#[trigger] acc@[j]) matches Some(nd) ==> eval(
                                graph@.steps,
                                nd.address.step as int,
                            ) == distribute(osteps, s as int, mprev, gyv, p as int)[j]),
                        forall|t: int|
                            0 <= t < count_in ==> eval(
                                graph@.steps,
                                (#[trigger] gxs@[t]).address.step as int,
                            ) == contribution(osteps, s as int, t, gyv),
                    decreases count_in - p,
                {
                    let target = xn[p].address.step;
                    proof {
                        assert(osteps[s as int].inputs[p as int].step < s);
                        assert(input_of(osteps, s as int, target as int)) by {
                            assert((#[trigger] osteps[s as int].inputs[p as int]).step
                                == target);
                        }
                        lemma_reaches_via_input(osteps, n as int, s as int, target as int);
                        assert(osteps[target as int].shape == osteps[s as int].shape);
                        assert(osteps[target as int].hw == osteps[s as int].hw);
                    }
                    let gnode = gxs[p];
                    let ghost mcur = distribute(osteps, s as int, mprev, gyv, p as int);
                    proof {
                        assert(distribute(osteps, s as int, mprev, gyv, (p + 1) as int)
                            == merge_into(
                            mcur,
                            target as int,
                            contribution(osteps, s as int, p as int, gyv),
                        ));
                        assert(eval(graph@.steps, gnode.address.step as int) == contribution(
                            osteps,
                            s as int,
                            p as int,
                            gyv,
                        ));
                    }
                    let slot: Option<Node> = acc[target];
                    match slot {
                        None => {
                            proof {
                                assert(!mcur.dom().contains(target as int));
                            }
                            acc.set(target, Some(gnode));
                        },
                        Some(prev) => {
                            proof {
                                assert(acc@[target as int] matches Some(nd) && nd == prev);
                                assert(mcur.dom().contains(target as int));
                                assert(eval(graph@.steps, prev.address.step as int)
                                    == mcur[target as int]);
                                assert(graph@.steps[prev.address.step as int].shape
                                    == graph@.steps[gnode.address.step as int].shape);
                                lemma_binary_ready(
                                    graph@.steps,
                                    OperatorModel::Add,
                                    prev.address,
                                    gnode.address,
                                );
                            }
                            let ghost before = graph@;
                            let summed = match prev.add(gnode, graph) {
                                Ok(nd) => nd,
                                Err(_) => {
                                    proof {
                                        assert(false);
                                    }
                                    vstd::pervasive::unreached()
                                },
                            };
                            proof {
                                // One `Add` step was appended; every other
                                // gradient node keeps its evaluation.
                                assert forall|j: int|
                                    0 <= j <= n implies ((#[trigger] acc@[j]) matches Some(nd)
                                    ==> eval(graph@.steps, nd.address.step as int)
                                    == mcur[j]) by {
                                    if acc@[j] is Some {
                                        let nd = acc@[j]->Some_0;
                                        lemma_eval_congruence(
                                            before.steps,
                                            graph@.steps,
                                            nd.address.step as int,
                                        );
                                    }
                                }
                                assert forall|t: int| 0 <= t < count_in implies eval(
                                    graph@.steps,
                                    (#[trigger] gxs@[t]).address.step as int,
                                ) == contribution(osteps, s as int, t, gyv) by {
                                    lemma_eval_congruence(
                                        before.steps,
                                        graph@.steps,
                                        gxs@[t].address.step as int,
                                    );
                                }
                                assert(eval(graph@.steps, summed.address.step as int)
                                    == bin_eval(
                                    OpKind::Add,
                                    eval(before.steps, prev.address.step as int),
                                    eval(before.steps, gnode.address.step as int),
                                ));
                            }
                            acc.set(target, Some(summed));
                        },
                    }
                    p = p + 1;
                }
                proof {
                    assert(backward(osteps, n as int, s as int) == distribute(
                        osteps,
                        s as int,
                        mprev,
                        gyv,
                        count_in as int,
                    ));
                }
            } else {
                proof {
                    assert(graph@.steps[s as int] == osteps[s as int]);
                    assert(osteps[s as int].op is Constant) by {
                        match osteps[s as int].op {
                            OperatorModel::Constant(_) => {
                            },
                            _ => {
                                assert(false);
                            },
                        }
                    }
                    assert(backward(osteps, n as int, s as int) == mprev);
                }
            }
        }
    }
    // Hand back one node per requested input, in the caller's order; a
    // step the traversal never reached gets a zero-filled constant.
    let ghost m0 = backward(osteps, n as int, 0);
    proof {
        lemma_backward_dom(osteps, n as int, 0);
    }
    let mut result: Vec<Node> = Vec::new();
    let mut k2: usize = 0;
    while k2 < m
        invariant
            0 <= k2 <= m,
            m0 == backward(osteps, n as int, 0),
            forall|j: int| #[trigger] m0.dom().contains(j) ==> 0 <= j <= n,
            forall|j: int|
                0 <= j <= n ==> ((#[trigger] acc@[j]) is Some <==> m0.dom().contains(j)),
            forall|j: int|
                0 <= j <= n ==> ((#[trigger] acc@[j]) matches Some(nd) ==> eval(
                    graph@.steps,
                    nd.address.step as int,
                ) == m0[j]),
            forall|t: int|
                0 <= t < k2 ==> {
                    let av = xs@[t].address.step as int;
                    &&& (m0.dom().contains(av) ==> eval(
                        graph@.steps,
                        (#[trigger] result@[t]).address.step as int,
                    ) == m0[av])
                    &&& (!m0.dom().contains(av) ==> eval(
                        graph@.steps,
                        result@[t].address.step as int,
                    ) == Ok::<Seq<Rat>, Error>(
                        Seq::new(count_of(osteps[av].shape), |i: int| rat_zero()),
                    ))
                },
            m == xs@.len(),
            n == y.address.step,
            n < osteps.len(),
            g0.steps == osteps,
            g0.id == gid,
            graph_wf(g0),
            graph_wf(graph@),
            graph@.id == gid,
            extends(graph@, g0),
            forall|t: int| 0 <= t < m ==> node_in(#[trigger] xs@[t], g0),
            acc@.len() == n + 1,
            acc@[n as int] == Some(seed),
            seed.graph_id == gid,
            seed.address.output == 0,
            addr_valid(graph@.steps, seed.address),
            graph@.steps[seed.address.step as int].op == OperatorModel::Constant(seed_arr),
            graph@.steps[seed.address.step as int].shape == osteps[n as int].shape,
            graph@.steps[seed.address.step as int].hw == osteps[n as int].hw,
            seed_arr.vals == ones,
            ones == Seq::new(count_of(osteps[n as int].shape), |i: int| rat_one()),
            forall|j: int|
                0 <= j <= n ==> ((#[trigger] acc@[j]) matches Some(nd) ==> {
                    &&& reaches(osteps, n as int, j)
                    &&& nd.graph_id == gid
                    &&& nd.address.output == 0
                    &&& addr_valid(graph@.steps, nd.address)
                    &&& graph@.steps[nd.address.step as int].shape == osteps[j].shape
                    &&& graph@.steps[nd.address.step as int].hw == osteps[j].hw
                }),
            result@.len() == k2,
            forall|t: int|
                0 <= t < k2 ==> {
                    let nd = #[trigger] result@[t];
                    &&& nd.graph_id == gid
                    &&& nd.address.output == 0
                    &&& addr_valid(graph@.steps, nd.address)
                    &&& graph@.steps[nd.address.step as int].shape == osteps[xs@[t].address.step
                        as int].shape
                    &&& graph@.steps[nd.address.step as int].hw == osteps[xs@[t].address.step
                        as int].hw
                },
            forall|t: int|
                0 <= t < k2 && xs@[t].address == y.address ==> #[trigger] result@[t] == seed,
            forall|t: int|
                0 <= t < k2 && !reaches(osteps, n as int, xs@[t].address.step as int) ==> {
                    let nd = #[trigger] result@[t];
                    &&& graph@.steps[nd.address.step as int].op matches OperatorModel::Constant(
                        am,
                    ) && am.vals == Seq::new(
                        count_of(osteps[xs@[t].address.step as int].shape),
                        |i: int| rat_zero(),
                    )
                },
        decreases m - k2,
    {
        let xk = xs[k2];
        let a = xk.address.step;
        let mut chosen_opt: Option<Node> = None;
        if a <= n {
            let slot: Option<Node> = acc[a];
            if let Some(nd) = slot {
                proof {
                    assert(acc@[a as int] matches Some(v) && v == nd);
                    assert(m0.dom().contains(a as int));
                    assert(eval(graph@.steps, nd.address.step as int) == m0[a as int]);
                    if xk.address == y.address {
                        assert(a == n);
                        assert(nd == seed);
                    }
                }
                chosen_opt = Some(nd);
            } else {
                proof {
                    assert(!m0.dom().contains(a as int));
                }
            }
        }
        let chosen: Node = match chosen_opt {
            Some(nd) => nd,
            None => {
                // Unreached: a fresh zero-filled constant of x's shape.
                proof {
                    assert(step_wf(osteps, a as int));
                    assert(graph@.steps[a as int] == osteps[a as int]);
                    if xk.address == y.address {
                        assert(acc@[n as int] == Some(seed));
                        assert(false);
                    }
                }
                let (zshape, zhw) = match graph.get_step(a) {
                    Some(st) => (st.shape.clone(), st.hardware),
                    None => {
                        proof {
                            assert(false);
                        }
                        vstd::pervasive::unreached()
                    },
                };
                let zhardware = Hardware::new(zhw);
                let ghost zpre = graph@;
                let znode = match Node::fill(&zhardware, graph, zshape, Rational::from_int(0)) {
                    Ok(nd) => nd,
                    Err(_) => {
                        proof {
                            assert(false);
                        }
                        vstd::pervasive::unreached()
                    },
                };
                proof {
                    assert(!m0.dom().contains(a as int));
                    let am = graph@.steps[znode.address.step as int].op->Constant_0;
                    assert(am.vals =~= Seq::new(
                        count_of(osteps[a as int].shape),
                        |i: int| rat_zero(),
                    ));
                    assert(eval(graph@.steps, znode.address.step as int) == Ok::<
                        Seq<Rat>,
                        Error,
                    >(Seq::new(count_of(osteps[a as int].shape), |i: int| rat_zero())));
                    // One constant step was appended; every node handed
                    // out so far keeps its evaluation.
                    assert forall|j: int|
                        0 <= j <= n implies ((#[trigger] acc@[j]) matches Some(nd) ==> eval(
                        graph@.steps,
                        nd.address.step as int,
                    ) == m0[j]) by {
                        if acc@[j] is Some {
                            let nd = acc@[j]->Some_0;
                            lemma_eval_congruence(zpre.steps, graph@.steps, nd.address.step
                                as int);
                        }
                    }
                    assert forall|t: int| 0 <= t < k2 implies eval(
                        graph@.steps,
                        (#[trigger] result@[t]).address.step as int,
                    ) == eval(zpre.steps, result@[t].address.step as int) by {
                        lemma_eval_congruence(zpre.steps, graph@.steps, result@[t].address.step
                            as int);
                    }
                }
                znode
            },
        };
        result.push(chosen);
        k2 = k2 + 1;
    }
    proof {
        assert forall|t: int|
            0 <= t < result@.len() && xs@[t].address == y.address implies eval(
            graph@.steps,
            (#[trigger] result@[t]).address.step as int,
        ) == Ok::<Seq<Rat>, Error>(
            Seq::new(count_of(osteps[y.address.step as int].shape), |i: int| rat_one()),
        ) by {
            assert(result@[t] == seed);
            assert(eval(graph@.steps, seed.address.step as int) == Ok::<Seq<Rat>, Error>(
                seed_arr.vals,
            ));
        }
        assert forall|t: int|
            0 <= t < result@.len() && !reaches(osteps, n as int, xs@[t].address.step as int)
            implies eval(graph@.steps, (#[trigger] result@[t]).address.step as int) == Ok::<
            Seq<Rat>,
            Error,
        >(
            Seq::new(count_of(osteps[xs@[t].address.step as int].shape), |i: int| rat_zero()),
        ) by {
            let nd = result@[t];
            let am = graph@.steps[nd.address.step as int].op->Constant_0;
            assert(eval(graph@.steps, nd.address.step as int) == Ok::<Seq<Rat>, Error>(am.vals));
        }
        assert forall|t: int|
            0 <= t < result@.len() && reaches(osteps, n as int, xs@[t].address.step as int)
            implies #[trigger] m0.dom().contains(xs@[t].address.step as int) by {
            lemma_backward_complete(osteps, n as int, xs@[t].address.step as int, 0);
        }
    }
    Ok(result)
}

} // verus!
