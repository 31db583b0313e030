//! Node: the caller-facing handle to one produced value.
//!
//! A node is a cheap copyable pair of a graph identity and an address; it
//! owns nothing. All arithmetic on nodes appends new steps to the owning
//! graph, which the caller passes in explicitly; combining nodes whose
//! graph identities differ is an `InvalidGraph` error.

use vstd::prelude::*;

use crate::array::{arr_wf, Array};
use crate::error::Error;
use crate::graph::{
    add_step_result, addr_valid, bin_eval, eval, extends, graph_wf, lemma_eval_congruence,
    step_core_eq, un_eval, Graph, GraphModel, NodeAddress, StepModel,
};
use crate::hardware::Hardware;
use crate::operator::{ew_bin, ew_neg, OpKind, Operator, OperatorModel};
use crate::rational::{rat_wf, Rat, Rational};
use crate::shape::{count_of, Shape};

verus! {

/// A handle to one value of one graph: the graph's identity plus the
/// address of the producing step. Two nodes are equal exactly when both
/// parts agree.
#[derive(Clone, Copy, Debug, PartialEq, Eq, Structural)]
pub struct Node {
    /// The identity of the graph this node belongs to.
    pub graph_id: u64,
    /// The address of the produced value within that graph.
    pub address: NodeAddress,
}

/// The node belongs to the given graph state and its address exists there.
pub open spec fn node_in(n: Node, g: GraphModel) -> bool {
    n.graph_id == g.id && addr_valid(g.steps, n.address)
}

impl Node {
    /// The handle to `address` within `graph`.
    pub fn new(graph: &Graph, address: NodeAddress) -> (r: Node)
        ensures
            r.graph_id == graph@.id,
            r.address == address,
    {
        Node { graph_id: graph.id(), address }
    }

    /// Appends a `Constant` step holding the scalar `value` and returns
    /// its node.
    pub fn from_scalar(hardware: &Hardware, graph: &mut Graph, value: Rational) -> (r: Node)
        requires
            graph_wf(old(graph)@),
            rat_wf(value@),
        ensures
            graph_wf(final(graph)@),
            extends(final(graph)@, old(graph)@),
            final(graph)@.steps.len() == old(graph)@.steps.len() + 1,
            r.graph_id == old(graph)@.id,
            r.address.step == old(graph)@.steps.len(),
            r.address.output == 0,
            node_in(r, final(graph)@),
            final(graph)@.steps[r.address.step as int].shape == Seq::<usize>::empty(),
            final(graph)@.steps[r.address.step as int].hw == hardware@,
            eval(final(graph)@.steps, r.address.step as int) == Ok::<Seq<Rat>, Error>(
                seq![value@],
            ),
    {
        let array = Array::scalar(hardware, value);
        let ghost arr_model = array@;
        let operator = Operator::constant(array);
        let ghost steps0 = old(graph)@.steps;
        proof {
            let empty = Seq::<NodeAddress>::empty();
            assert(crate::graph::input_hws(steps0, empty) =~= Seq::<u64>::empty());
            assert(crate::graph::input_shapes(steps0, empty) =~= Seq::<Seq<usize>>::empty());
        }
        let outputs = match graph.add_step(operator, Vec::new()) {
            Ok(outputs) => outputs,
            Err(_) => {
                proof {
                    assert(false);
                }
                vstd::pervasive::unreached()
            },
        };
        let node = Node { graph_id: graph.id(), address: outputs[0] };
        proof {
            let n = node.address.step as int;
            assert(final(graph)@.steps[n].op == OperatorModel::Constant(arr_model));
            assert(eval(final(graph)@.steps, n) == Ok::<Seq<Rat>, Error>(arr_model.vals));
        }
        node
    }

    /// Appends a `Constant` step holding an array of the given shape with
    /// every element equal to `value`, and returns its node. Fails with
    /// `ShapeMismatch` when the element count does not fit in a machine
    /// word.
    pub fn fill(hardware: &Hardware, graph: &mut Graph, shape: Shape, value: Rational) -> (r:
        Result<Node, Error>)
        requires
            graph_wf(old(graph)@),
            rat_wf(value@),
        ensures
            graph_wf(final(graph)@),
            r is Ok <==> count_of(shape@) <= usize::MAX,
            r matches Err(e) ==> e == Error::ShapeMismatch && final(graph)@ == old(graph)@,
            r matches Ok(n) ==> {
                &&& extends(final(graph)@, old(graph)@)
                &&& final(graph)@.steps.len() == old(graph)@.steps.len() + 1
                &&& n.graph_id == old(graph)@.id
                &&& n.address.step == old(graph)@.steps.len()
                &&& n.address.output == 0
                &&& node_in(n, final(graph)@)
                &&& final(graph)@.steps[n.address.step as int].shape == shape@
                &&& final(graph)@.steps[n.address.step as int].hw == hardware@
                &&& (final(graph)@.steps[n.address.step as int].op matches
                    OperatorModel::Constant(am) && am.vals == Seq::new(
                    count_of(shape@),
                    |i: int| value@,
                ) && am.shape == shape@ && am.hw == hardware@)
                &&& eval(final(graph)@.steps, n.address.step as int) == Ok::<Seq<Rat>, Error>(
                    Seq::new(count_of(shape@), |i: int| value@),
                )
            },
    {
        let array = match Array::constant(hardware, shape, value) {
            Ok(a) => a,
            Err(_) => {
                return Err(Error::ShapeMismatch);
            },
        };
        let ghost arr_model = array@;
        let operator = Operator::constant(array);
        let ghost steps0 = old(graph)@.steps;
        proof {
            let empty = Seq::<NodeAddress>::empty();
            assert(crate::graph::input_hws(steps0, empty) =~= Seq::<u64>::empty());
            assert(crate::graph::input_shapes(steps0, empty) =~= Seq::<Seq<usize>>::empty());
        }
        let outputs = match graph.add_step(operator, Vec::new()) {
            Ok(outputs) => outputs,
            Err(_) => {
                proof {
                    assert(false);
                }
                vstd::pervasive::unreached()
            },
        };
        let node = Node { graph_id: graph.id(), address: outputs[0] };
        proof {
            let n = node.address.step as int;
            assert(final(graph)@.steps[n].op == OperatorModel::Constant(arr_model));
            assert(eval(final(graph)@.steps, n) == Ok::<Seq<Rat>, Error>(arr_model.vals));
        }
        Ok(node)
    }

    /// Checks that every node in `others` belongs to the same graph as
    /// `self`, by identity. Any mismatch is an `InvalidGraph` error.
    pub fn check_graph(&self, others: &[Node]) -> (r: Result<(), Error>)
        ensures
            r is Ok <==> (forall|k: int|
                0 <= k < others@.len() ==> (#[trigger] others@[k]).graph_id == self.graph_id),
            r is Err ==> r == Err::<(), Error>(Error::InvalidGraph),
    {
        let n: usize = others.len();
        let mut k: usize = 0;
        while k < n
            invariant
                0 <= k <= n,
                n == others@.len(),
                forall|t: int|
                    0 <= t < k ==> (#[trigger] others@[t]).graph_id == self.graph_id,
            decreases n - k,
        {
            if others[k].graph_id != self.graph_id {
                return Err(Error::InvalidGraph);
            }
            k = k + 1;
        }
        Ok(())
    }

    /// Lazily evaluates this node's value in its graph, with memoization.
    /// The result is pinned to [`eval`] of the graph as it stood before
    /// the call.
    pub fn calculate(&self, graph: &mut Graph) -> (r: Result<Array, Error>)
        requires
            graph_wf(old(graph)@),
        ensures
            graph_wf(final(graph)@),
            final(graph)@.id == old(graph)@.id,
            final(graph)@.steps.len() == old(graph)@.steps.len(),
            forall|j: int|
                0 <= j < old(graph)@.steps.len() ==> step_core_eq(
                    #[trigger] final(graph)@.steps[j],
                    old(graph)@.steps[j],
                ),
            r matches Ok(a) ==> {
                &&& node_in(*self, old(graph)@)
                &&& eval(old(graph)@.steps, self.address.step as int) == Ok::<Seq<Rat>, Error>(
                    a@.vals,
                )
                &&& a@.shape == old(graph)@.steps[self.address.step as int].shape
                &&& a@.hw == old(graph)@.steps[self.address.step as int].hw
                &&& arr_wf(a@)
            },
            r matches Err(e) ==> {
                &&& !node_in(*self, old(graph)@) ==> e == Error::InvalidGraph && final(graph)@
                    == old(graph)@
                &&& node_in(*self, old(graph)@) ==> eval(
                    old(graph)@.steps,
                    self.address.step as int,
                ) == Err::<Seq<Rat>, Error>(e)
            },
            r is Ok <==> node_in(*self, old(graph)@) && eval(
                old(graph)@.steps,
                self.address.step as int,
            ) is Ok,
    {
        if self.graph_id != graph.id() {
            return Err(Error::InvalidGraph);
        }
        graph.calculate(&self.address)
    }

    /// Evaluates this node and reads its value back as a scalar. Fails
    /// with `ShapeMismatch` when the node's value is not rank zero.
    pub fn to_scalar(&self, graph: &mut Graph) -> (r: Result<Rational, Error>)
        requires
            graph_wf(old(graph)@),
        ensures
            graph_wf(final(graph)@),
            final(graph)@.id == old(graph)@.id,
            final(graph)@.steps.len() == old(graph)@.steps.len(),
            forall|j: int|
                0 <= j < old(graph)@.steps.len() ==> step_core_eq(
                    #[trigger] final(graph)@.steps[j],
                    old(graph)@.steps[j],
                ),
            r matches Ok(v) ==> {
                &&& node_in(*self, old(graph)@)
                &&& old(graph)@.steps[self.address.step as int].shape.len() == 0
                &&& eval(old(graph)@.steps, self.address.step as int) is Ok
                &&& v@ == eval(old(graph)@.steps, self.address.step as int)->Ok_0[0]
                &&& rat_wf(v@)
            },
            r matches Err(e) ==> {
                &&& !node_in(*self, old(graph)@) ==> e == Error::InvalidGraph
                &&& node_in(*self, old(graph)@) ==> e == (match eval(
                    old(graph)@.steps,
                    self.address.step as int,
                ) {
                    Err(e0) => e0,
                    Ok(_) => Error::ShapeMismatch,
                })
            },
            r is Ok <==> node_in(*self, old(graph)@) && eval(
                old(graph)@.steps,
                self.address.step as int,
            ) is Ok && old(graph)@.steps[self.address.step as int].shape.len() == 0,
    {
        let array = match self.calculate(graph) {
            Ok(a) => a,
            Err(e) => {
                return Err(e);
            },
        };
        array.to_scalar()
    }

    /// The shape inferred for this node's step when it was added.
    pub fn shape(&self, graph: &Graph) -> (r: Result<Shape, Error>)
        ensures
            r matches Ok(s) ==> node_in(*self, graph@) && s@ == graph@.steps[self.address.step
                as int].shape,
            r is Ok <==> node_in(*self, graph@),
            r is Err ==> r == Err::<Shape, Error>(Error::InvalidGraph),
    {
        if self.graph_id != graph.id() || self.address.output != 0 {
            return Err(Error::InvalidGraph);
        }
        match graph.get_step(self.address.step) {
            Some(step) => Ok(step.shape.clone()),
            None => Err(Error::InvalidGraph),
        }
    }

    /// The hardware identity inferred for this node's step when it was
    /// added.
    pub fn hardware(&self, graph: &Graph) -> (r: Result<u64, Error>)
        ensures
            r matches Ok(h) ==> node_in(*self, graph@) && h == graph@.steps[self.address.step
                as int].hw,
            r is Ok <==> node_in(*self, graph@),
            r is Err ==> r == Err::<u64, Error>(Error::InvalidGraph),
    {
        if self.graph_id != graph.id() || self.address.output != 0 {
            return Err(Error::InvalidGraph);
        }
        match graph.get_step(self.address.step) {
            Some(step) => Ok(step.hardware),
            None => Err(Error::InvalidGraph),
        }
    }

    /// Appends one binary arithmetic step over `self` and `other`.
    fn combine(self, other: Node, graph: &mut Graph, operator: Operator) -> (r: Result<
        Node,
        Error,
    >)
        requires
            graph_wf(old(graph)@),
            crate::operator::is_binary(crate::operator::op_kind(operator@)),
            crate::operator::op_wf(operator@),
        ensures
            graph_wf(final(graph)@),
            r is Ok <==> self.graph_id == old(graph)@.id && other.graph_id == old(graph)@.id
                && add_step_result(
                old(graph)@.steps,
                operator@,
                seq![self.address, other.address],
            ) is Ok,
            r matches Err(e) ==> final(graph)@ == old(graph)@ && (if self.graph_id != old(
                graph,
            )@.id || other.graph_id != old(graph)@.id {
                e == Error::InvalidGraph
            } else {
                add_step_result(old(graph)@.steps, operator@, seq![self.address, other.address])
                    == Err::<(Seq<usize>, u64), Error>(e)
            }),
            r matches Ok(n) ==> {
                &&& extends(final(graph)@, old(graph)@)
                &&& final(graph)@.steps.len() == old(graph)@.steps.len() + 1
                &&& n.graph_id == old(graph)@.id
                &&& n.address.step == old(graph)@.steps.len()
                &&& n.address.output == 0
                &&& node_in(n, final(graph)@)
                &&& {
                    let last = final(graph)@.steps[n.address.step as int];
                    &&& last.op == operator@
                    &&& last.inputs == seq![self.address, other.address]
                    &&& last.shape == old(graph)@.steps[self.address.step as int].shape
                    &&& last.hw == old(graph)@.steps[self.address.step as int].hw
                    &&& last.cache is None
                }
                &&& eval(final(graph)@.steps, n.address.step as int) == bin_eval(
                    crate::operator::op_kind(operator@),
                    eval(old(graph)@.steps, self.address.step as int),
                    eval(old(graph)@.steps, other.address.step as int),
                )
            },
    {
        if self.graph_id != graph.id() || other.graph_id != graph.id() {
            return Err(Error::InvalidGraph);
        }
        let ghost op_model = operator@;
        let ghost steps0 = old(graph)@.steps;
        let mut inputs: Vec<NodeAddress> = Vec::new();
        inputs.push(self.address);
        inputs.push(other.address);
        proof {
            assert(inputs@ =~= seq![self.address, other.address]);
        }
        let outputs = match graph.add_step(operator, inputs) {
            Ok(outputs) => outputs,
            Err(e) => {
                return Err(e);
            },
        };
        let node = Node { graph_id: graph.id(), address: outputs[0] };
        proof {
            let n = node.address.step as int;
            let addrs = seq![self.address, other.address];
            let last = final(graph)@.steps[n];
            assert(op_model !is Constant && op_model !is Neg);
            assert(crate::graph::addrs_valid(steps0, addrs));
            assert(addr_valid(steps0, self.address) && addr_valid(steps0, other.address));
            assert(crate::graph::input_shapes(steps0, addrs)[0] == steps0[self.address.step
                as int].shape);
            assert(crate::graph::input_hws(steps0, addrs)[0] == steps0[self.address.step
                as int].hw);
            assert(last.shape == steps0[self.address.step as int].shape);
            assert(last.hw == steps0[self.address.step as int].hw);
            assert(last.inputs[0] == self.address && last.inputs[1] == other.address);
            lemma_eval_congruence(steps0, final(graph)@.steps, self.address.step as int);
            lemma_eval_congruence(steps0, final(graph)@.steps, other.address.step as int);
            assert(eval(final(graph)@.steps, n) == bin_eval(
                crate::operator::op_kind(op_model),
                eval(final(graph)@.steps, self.address.step as int),
                eval(final(graph)@.steps, other.address.step as int),
            ));
        }
        Ok(node)
    }

    /// Appends an `Add` step computing `self + other` elementwise.
    pub fn add(self, other: Node, graph: &mut Graph) -> (r: Result<Node, Error>)
        requires
            graph_wf(old(graph)@),
        ensures
            graph_wf(final(graph)@),
            r is Ok <==> self.graph_id == old(graph)@.id && other.graph_id == old(graph)@.id
                && add_step_result(
                old(graph)@.steps,
                OperatorModel::Add,
                seq![self.address, other.address],
            ) is Ok,
            r matches Err(e) ==> final(graph)@ == old(graph)@ && (if self.graph_id != old(
                graph,
            )@.id || other.graph_id != old(graph)@.id {
                e == Error::InvalidGraph
            } else {
                add_step_result(
                    old(graph)@.steps,
                    OperatorModel::Add,
                    seq![self.address, other.address],
                ) == Err::<(Seq<usize>, u64), Error>(e)
            }),
            r matches Ok(n) ==> {
                &&& extends(final(graph)@, old(graph)@)
                &&& final(graph)@.steps.len() == old(graph)@.steps.len() + 1
                &&& n.graph_id == old(graph)@.id
                &&& n.address.step == old(graph)@.steps.len()
                &&& n.address.output == 0
                &&& node_in(n, final(graph)@)
                &&& {
                    let last = final(graph)@.steps[n.address.step as int];
                    &&& last.op == OperatorModel::Add
                    &&& last.inputs == seq![self.address, other.address]
                    &&& last.shape == old(graph)@.steps[self.address.step as int].shape
                    &&& last.hw == old(graph)@.steps[self.address.step as int].hw
                    &&& last.cache is None
                }
                &&& eval(final(graph)@.steps, n.address.step as int) == bin_eval(
                    OpKind::Add,
                    eval(old(graph)@.steps, self.address.step as int),
                    eval(old(graph)@.steps, other.address.step as int),
                )
            },
    {
        self.combine(other, graph, Operator::Add)
    }

    /// Appends a `Sub` step computing `self - other` elementwise.
    pub fn sub(self, other: Node, graph: &mut Graph) -> (r: Result<Node, Error>)
        requires
            graph_wf(old(graph)@),
        ensures
            graph_wf(final(graph)@),
            r is Ok <==> self.graph_id == old(graph)@.id && other.graph_id == old(graph)@.id
                && add_step_result(
                old(graph)@.steps,
                OperatorModel::Sub,
                seq![self.address, other.address],
            ) is Ok,
            r matches Err(e) ==> final(graph)@ == old(graph)@ && (if self.graph_id != old(
                graph,
            )@.id || other.graph_id != old(graph)@.id {
                e == Error::InvalidGraph
            } else {
                add_step_result(
                    old(graph)@.steps,
                    OperatorModel::Sub,
                    seq![self.address, other.address],
                ) == Err::<(Seq<usize>, u64), Error>(e)
            }),
            r matches Ok(n) ==> {
                &&& extends(final(graph)@, old(graph)@)
                &&& final(graph)@.steps.len() == old(graph)@.steps.len() + 1
                &&& n.graph_id == old(graph)@.id
                &&& n.address.step == old(graph)@.steps.len()
                &&& n.address.output == 0
                &&& node_in(n, final(graph)@)
                &&& {
                    let last = final(graph)@.steps[n.address.step as int];
                    &&& last.op == OperatorModel::Sub
                    &&& last.inputs == seq![self.address, other.address]
                    &&& last.shape == old(graph)@.steps[self.address.step as int].shape
                    &&& last.hw == old(graph)@.steps[self.address.step as int].hw
                    &&& last.cache is None
                }
                &&& eval(final(graph)@.steps, n.address.step as int) == bin_eval(
                    OpKind::Sub,
                    eval(old(graph)@.steps, self.address.step as int),
                    eval(old(graph)@.steps, other.address.step as int),
                )
            },
    {
        self.combine(other, graph, Operator::Sub)
    }

    /// Appends a `Mul` step computing `self * other` elementwise.
    pub fn mul(self, other: Node, graph: &mut Graph) -> (r: Result<Node, Error>)
        requires
            graph_wf(old(graph)@),
        ensures
            graph_wf(final(graph)@),
            r is Ok <==> self.graph_id == old(graph)@.id && other.graph_id == old(graph)@.id
                && add_step_result(
                old(graph)@.steps,
                OperatorModel::Mul,
                seq![self.address, other.address],
            ) is Ok,
            r matches Err(e) ==> final(graph)@ == old(graph)@ && (if self.graph_id != old(
                graph,
            )@.id || other.graph_id != old(graph)@.id {
                e == Error::InvalidGraph
            } else {
                add_step_result(
                    old(graph)@.steps,
                    OperatorModel::Mul,
                    seq![self.address, other.address],
                ) == Err::<(Seq<usize>, u64), Error>(e)
            }),
            r matches Ok(n) ==> {
                &&& extends(final(graph)@, old(graph)@)
                &&& final(graph)@.steps.len() == old(graph)@.steps.len() + 1
                &&& n.graph_id == old(graph)@.id
                &&& n.address.step == old(graph)@.steps.len()
                &&& n.address.output == 0
                &&& node_in(n, final(graph)@)
                &&& {
                    let last = final(graph)@.steps[n.address.step as int];
                    &&& last.op == OperatorModel::Mul
                    &&& last.inputs == seq![self.address, other.address]
                    &&& last.shape == old(graph)@.steps[self.address.step as int].shape
                    &&& last.hw == old(graph)@.steps[self.address.step as int].hw
                    &&& last.cache is None
                }
                &&& eval(final(graph)@.steps, n.address.step as int) == bin_eval(
                    OpKind::Mul,
                    eval(old(graph)@.steps, self.address.step as int),
                    eval(old(graph)@.steps, other.address.step as int),
                )
            },
    {
        self.combine(other, graph, Operator::Mul)
    }

    /// Appends a `Div` step computing `self / other` elementwise.
    pub fn div(self, other: Node, graph: &mut Graph) -> (r: Result<Node, Error>)
        requires
            graph_wf(old(graph)@),
        ensures
            graph_wf(final(graph)@),
            r is Ok <==> self.graph_id == old(graph)@.id && other.graph_id == old(graph)@.id
                && add_step_result(
                old(graph)@.steps,
                OperatorModel::Div,
                seq![self.address, other.address],
            ) is Ok,
            r matches Err(e) ==> final(graph)@ == old(graph)@ && (if self.graph_id != old(
                graph,
            )@.id || other.graph_id != old(graph)@.id {
                e == Error::InvalidGraph
            } else {
                add_step_result(
                    old(graph)@.steps,
                    OperatorModel::Div,
                    seq![self.address, other.address],
                ) == Err::<(Seq<usize>, u64), Error>(e)
            }),
            r matches Ok(n) ==> {
                &&& extends(final(graph)@, old(graph)@)
                &&& final(graph)@.steps.len() == old(graph)@.steps.len() + 1
                &&& n.graph_id == old(graph)@.id
                &&& n.address.step == old(graph)@.steps.len()
                &&& n.address.output == 0
                &&& node_in(n, final(graph)@)
                &&& {
                    let last = final(graph)@.steps[n.address.step as int];
                    &&& last.op == OperatorModel::Div
                    &&& last.inputs == seq![self.address, other.address]
                    &&& last.shape == old(graph)@.steps[self.address.step as int].shape
                    &&& last.hw == old(graph)@.steps[self.address.step as int].hw
                    &&& last.cache is None
                }
                &&& eval(final(graph)@.steps, n.address.step as int) == bin_eval(
                    OpKind::Div,
                    eval(old(graph)@.steps, self.address.step as int),
                    eval(old(graph)@.steps, other.address.step as int),
                )
            },
    {
        self.combine(other, graph, Operator::Div)
    }

    /// Appends a `Neg` step computing `-self` elementwise.
    pub fn neg(self, graph: &mut Graph) -> (r: Result<Node, Error>)
        requires
            graph_wf(old(graph)@),
        ensures
            graph_wf(final(graph)@),
            r is Ok <==> self.graph_id == old(graph)@.id && addr_valid(
                old(graph)@.steps,
                self.address,
            ),
            r matches Err(e) ==> final(graph)@ == old(graph)@ && e == Error::InvalidGraph,
            r matches Ok(n) ==> {
                &&& extends(final(graph)@, old(graph)@)
                &&& final(graph)@.steps.len() == old(graph)@.steps.len() + 1
                &&& n.graph_id == old(graph)@.id
                &&& n.address.step == old(graph)@.steps.len()
                &&& n.address.output == 0
                &&& node_in(n, final(graph)@)
                &&& {
                    let last = final(graph)@.steps[n.address.step as int];
                    &&& last.op == OperatorModel::Neg
                    &&& last.inputs == seq![self.address]
                    &&& last.shape == old(graph)@.steps[self.address.step as int].shape
                    &&& last.hw == old(graph)@.steps[self.address.step as int].hw
                    &&& last.cache is None
                }
                &&& eval(final(graph)@.steps, n.address.step as int) == un_eval(
                    eval(old(graph)@.steps, self.address.step as int),
                )
            },
    {
        if self.graph_id != graph.id() {
            return Err(Error::InvalidGraph);
        }
        let ghost steps0 = old(graph)@.steps;
        let mut inputs: Vec<NodeAddress> = Vec::new();
        inputs.push(self.address);
        proof {
            assert(inputs@ =~= seq![self.address]);
        }
        let outputs = match graph.add_step(Operator::Neg, inputs) {
            Ok(outputs) => outputs,
            Err(e) => {
                proof {
                    let addrs = seq![self.address];
                    if crate::graph::addrs_valid(steps0, addrs) {
                        assert(crate::graph::input_hws(steps0, addrs).len() == 1);
                        assert(crate::graph::input_shapes(steps0, addrs).len() == 1);
                        assert(false);
                    }
                    assert(!addr_valid(steps0, self.address));
                }
                return Err(Error::InvalidGraph);
            },
        };
        let node = Node { graph_id: graph.id(), address: outputs[0] };
        proof {
            let n = node.address.step as int;
            let addrs = seq![self.address];
            let last = final(graph)@.steps[n];
            assert(crate::graph::addrs_valid(steps0, addrs));
            assert(addr_valid(steps0, self.address));
            assert(crate::graph::input_shapes(steps0, addrs)[0] == steps0[self.address.step
                as int].shape);
            assert(crate::graph::input_hws(steps0, addrs)[0] == steps0[self.address.step
                as int].hw);
            assert(last.inputs[0] == self.address);
            lemma_eval_congruence(steps0, final(graph)@.steps, self.address.step as int);
            assert(eval(final(graph)@.steps, n) == un_eval(
                eval(final(graph)@.steps, self.address.step as int),
            ));
        }
        Ok(node)
    }
}

} // verus!
