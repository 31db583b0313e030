//! The append-only computation graph.
//!
//! A graph is an ordered list of steps, each pairing an operator with the
//! addresses of its inputs and a memoization slot. Input addresses always
//! point to strictly earlier steps, so ascending index order is a valid
//! evaluation order and descending index order a valid reverse-topological
//! order. Steps are never removed or mutated, except to fill a step's cache
//! slot exactly once.
//!
//! The meaning of a step is given by the specification function [`eval`]: a
//! recursive, exact evaluation of the step's subgraph, independent of every
//! cache slot. Everything [`Graph::calculate`] returns is pinned to `eval`
//! of the graph as it stood before the call.

use vstd::prelude::*;

use crate::array::{arr_wf, Array, ArrayModel};
use crate::error::Error;
use crate::operator::{
    arity, ew_bin, ew_neg, hw_rule, models_of, op_kind, op_wf, perform_model, shape_rule,
    Operator, OperatorModel,
};
use crate::rational::Rat;
use crate::shape::{count_of, Shape};

verus! {

/// The address of one produced value: a step index and an output index
/// within that step. Every current operator has exactly one output, at
/// output index zero.
#[derive(Clone, Copy, Debug, PartialEq, Eq, Structural)]
pub struct NodeAddress {
    pub step: usize,
    pub output: usize,
}

impl NodeAddress {
    /// The address of output `output` of step `step`.
    pub fn new(step: usize, output: usize) -> (r: NodeAddress)
        ensures
            r.step == step,
            r.output == output,
    {
        NodeAddress { step, output }
    }
}

/// Mathematical content of a [`Step`].
#[verifier::ext_equal]
pub struct StepModel {
    pub op: OperatorModel,
    pub inputs: Seq<NodeAddress>,
    pub shape: Seq<usize>,
    pub hw: u64,
    pub cache: Option<ArrayModel>,
}

/// One entry of the graph: an operator, the addresses of its inputs, the
/// eagerly inferred output shape and hardware identity, and the memoized
/// output, once calculated.
#[derive(Debug)]
pub struct Step {
    /// The computation rule of this step.
    pub operator: Operator,
    /// Addresses of the operator's inputs, all at strictly earlier steps.
    pub inputs: Vec<NodeAddress>,
    /// The output shape inferred when the step was added.
    pub shape: Shape,
    /// The hardware identity inferred when the step was added.
    pub hardware: u64,
    /// The memoized output, filled at most once.
    pub cache: Option<Array>,
}

impl View for Step {
    type V = StepModel;

    open spec fn view(&self) -> StepModel {
        StepModel {
            op: self.operator@,
            inputs: self.inputs@,
            shape: self.shape@,
            hw: self.hardware,
            cache: match self.cache {
                Some(a) => Some(a@),
                None => None,
            },
        }
    }
}

/// The views of a sequence of steps.
pub open spec fn steps_of(s: Seq<Step>) -> Seq<StepModel> {
    s.map_values(|st: Step| st@)
}

/// Mathematical content of a [`Graph`].
#[verifier::ext_equal]
pub struct GraphModel {
    pub id: u64,
    pub steps: Seq<StepModel>,
}

/// Whether an address exists in a graph with the given steps.
pub open spec fn addr_valid(steps: Seq<StepModel>, a: NodeAddress) -> bool {
    a.step < steps.len() && a.output == 0
}

/// Two steps agree on everything except, possibly, their cache slot.
pub open spec fn step_core_eq(a: StepModel, b: StepModel) -> bool {
    &&& a.op == b.op
    &&& a.inputs == b.inputs
    &&& a.shape == b.shape
    &&& a.hw == b.hw
}

/// The exact value of step `i`: a constant produces its captured values,
/// and every other operator applies its elementwise rule to the values of
/// its inputs, evaluated in address order. The result does not depend on
/// any cache slot.
pub open spec fn eval(steps: Seq<StepModel>, i: int) -> Result<Seq<Rat>, Error>
    decreases i,
{
    if !(0 <= i < steps.len()) {
        Err(Error::InvalidGraph)
    } else {
        let st = steps[i];
        match st.op {
            OperatorModel::Constant(a) => Ok(a.vals),
            OperatorModel::Neg => {
                if st.inputs.len() == 1 && st.inputs[0].step < i {
                    match eval(steps, st.inputs[0].step as int) {
                        Err(e) => Err(e),
                        Ok(v) => ew_neg(v),
                    }
                } else {
                    Err(Error::InvalidGraph)
                }
            },
            _ => {
                if st.inputs.len() == 2 && st.inputs[0].step < i && st.inputs[1].step < i {
                    match eval(steps, st.inputs[0].step as int) {
                        Err(e) => Err(e),
                        Ok(l) => match eval(steps, st.inputs[1].step as int) {
                            Err(e) => Err(e),
                            Ok(r) => ew_bin(op_kind(st.op), l, r),
                        },
                    }
                } else {
                    Err(Error::InvalidGraph)
                }
            },
        }
    }
}

/// The evaluation of a binary step from the evaluations of its two inputs:
/// the first failing input decides, otherwise the elementwise rule is
/// applied.
pub open spec fn bin_eval(
    kind: crate::operator::OpKind,
    l: Result<Seq<Rat>, Error>,
    r: Result<Seq<Rat>, Error>,
) -> Result<Seq<Rat>, Error> {
    match l {
        Err(e) => Err(e),
        Ok(lv) => match r {
            Err(e) => Err(e),
            Ok(rv) => ew_bin(kind, lv, rv),
        },
    }
}

/// The evaluation of a negation step from the evaluation of its input.
pub open spec fn un_eval(l: Result<Seq<Rat>, Error>) -> Result<Seq<Rat>, Error> {
    match l {
        Err(e) => Err(e),
        Ok(v) => ew_neg(v),
    }
}

/// The second graph state extends the first: same identity, and every step
/// of the first still present, byte for byte, at its old index.
pub open spec fn extends(new: GraphModel, prev: GraphModel) -> bool {
    &&& new.id == prev.id
    &&& prev.steps.len() <= new.steps.len()
    &&& forall|j: int| 0 <= j < prev.steps.len() ==> new.steps[j] == prev.steps[j]
}

/// Well-formedness of one step within a step list: the right number of
/// inputs, all at earlier addresses; shape and hardware agreeing with the
/// operator's rules; and a cache slot that, when filled, holds exactly the
/// evaluation of the step.
pub open spec fn step_wf(steps: Seq<StepModel>, i: int) -> bool {
    let st = steps[i];
    &&& st.inputs.len() == arity(op_kind(st.op))
    &&& forall|k: int|
        0 <= k < st.inputs.len() ==> (#[trigger] st.inputs[k]).step < i && st.inputs[k].output
            == 0
    &&& op_wf(st.op)
    &&& match st.op {
        OperatorModel::Constant(a) => st.shape == a.shape && st.hw == a.hw,
        _ => forall|k: int|
            0 <= k < st.inputs.len() ==> steps[(#[trigger] st.inputs[k]).step as int].shape
                == st.shape && steps[st.inputs[k].step as int].hw == st.hw,
    }
    &&& count_of(st.shape) <= usize::MAX
    &&& (st.cache matches Some(a) ==> a.shape == st.shape && a.hw == st.hw && arr_wf(a) && eval(
        steps,
        i,
    ) == Ok::<Seq<Rat>, Error>(a.vals))
}

/// Well-formedness of a step list.
pub open spec fn steps_wf(steps: Seq<StepModel>) -> bool {
    forall|i: int| 0 <= i < steps.len() ==> step_wf(steps, i)
}

/// Well-formedness of a whole graph.
pub open spec fn graph_wf(g: GraphModel) -> bool {
    steps_wf(g.steps)
}

/// Evaluation reads only the operators and input addresses of steps up to
/// the evaluated index: two step lists that agree on those agree on the
/// evaluation, whatever their cache slots hold.
pub proof fn lemma_eval_congruence(s1: Seq<StepModel>, s2: Seq<StepModel>, i: int)
    requires
        0 <= i < s1.len(),
        i < s2.len(),
        forall|j: int| 0 <= j <= i ==> step_core_eq(#[trigger] s1[j], s2[j]),
    ensures
        eval(s1, i) == eval(s2, i),
    decreases i,
{
    assert(step_core_eq(s1[i], s2[i]));
    let st = s1[i];
    match st.op {
        OperatorModel::Constant(_) => {
        },
        OperatorModel::Neg => {
            if st.inputs.len() == 1 && st.inputs[0].step < i {
                lemma_eval_congruence(s1, s2, st.inputs[0].step as int);
            }
        },
        _ => {
            if st.inputs.len() == 2 && st.inputs[0].step < i && st.inputs[1].step < i {
                lemma_eval_congruence(s1, s2, st.inputs[0].step as int);
                lemma_eval_congruence(s1, s2, st.inputs[1].step as int);
            }
        },
    }
}

/// The hardware identities of the steps named by a list of input
/// addresses.
pub open spec fn input_hws(steps: Seq<StepModel>, inputs: Seq<NodeAddress>) -> Seq<u64> {
    inputs.map_values(|a: NodeAddress| steps[a.step as int].hw)
}

/// The shapes of the steps named by a list of input addresses.
pub open spec fn input_shapes(steps: Seq<StepModel>, inputs: Seq<NodeAddress>) -> Seq<Seq<usize>> {
    inputs.map_values(|a: NodeAddress| steps[a.step as int].shape)
}

/// Whether every address in a list exists in the graph.
pub open spec fn addrs_valid(steps: Seq<StepModel>, inputs: Seq<NodeAddress>) -> bool {
    forall|k: int| 0 <= k < inputs.len() ==> addr_valid(steps, #[trigger] inputs[k])
}

/// The outcome of appending a step: the addresses must exist, then the
/// operator's hardware rule and shape rule must both accept the resolved
/// inputs; the step is then added with the inferred shape and hardware.
pub open spec fn add_step_result(
    steps: Seq<StepModel>,
    op: OperatorModel,
    inputs: Seq<NodeAddress>,
) -> Result<(Seq<usize>, u64), Error> {
    if !addrs_valid(steps, inputs) {
        Err(Error::InvalidGraph)
    } else {
        match hw_rule(op, input_hws(steps, inputs)) {
            Err(e) => Err(e),
            Ok(hw) => match shape_rule(op, input_shapes(steps, inputs)) {
                Err(e) => Err(e),
                Ok(shape) => Ok((shape, hw)),
            },
        }
    }
}

/// An append-only list of computation steps, identified among other graphs
/// by the identity its creator chose for it.
#[derive(Debug)]
pub struct Graph {
    id: u64,
    steps: Vec<Step>,
}

impl View for Graph {
    type V = GraphModel;

    closed spec fn view(&self) -> GraphModel {
        GraphModel { id: self.id, steps: steps_of(self.steps@) }
    }
}

impl Graph {
    /// An empty graph carrying the given identity. Callers give each graph
    /// they create a distinct identity; nodes remember it, and combining
    /// nodes whose identities differ is an `InvalidGraph` error.
    pub fn new(id: u64) -> (r: Graph)
        ensures
            r@.id == id,
            r@.steps.len() == 0,
            graph_wf(r@),
    {
        let r = Graph { id, steps: Vec::new() };
        proof {
            assert(r@.steps =~= Seq::<StepModel>::empty());
        }
        r
    }

    /// The identity this graph was created with.
    pub fn id(&self) -> (r: u64)
        ensures
            r == self@.id,
    {
        self.id
    }

    /// The number of steps added so far.
    pub fn num_steps(&self) -> (r: usize)
        ensures
            r as nat == self@.steps.len(),
    {
        self.steps.len()
    }

    /// One step, for introspection.
    pub fn get_step(&self, index: usize) -> (r: Option<&Step>)
        ensures
            r matches Some(s) ==> index < self@.steps.len() && s@ == self@.steps[index as int],
            r is Some <==> index < self@.steps.len(),
    {
        if index < self.steps.len() {
            Some(&self.steps[index])
        } else {
            None
        }
    }

    /// Appends one step. Nothing is executed eagerly, but the input
    /// addresses are resolved and the operator's hardware and shape rules
    /// are applied at once, so a mismatch surfaces here and not at
    /// calculation time. Returns the addresses of the step's outputs, one
    /// per declared output; every current operator declares exactly one.
    pub fn add_step(&mut self, operator: Operator, inputs: Vec<NodeAddress>) -> (r: Result<
        Vec<NodeAddress>,
        Error,
    >)
        requires
            graph_wf(old(self)@),
            op_wf(operator@),
        ensures
            graph_wf(final(self)@),
            final(self)@.id == old(self)@.id,
            r is Ok <==> add_step_result(old(self)@.steps, operator@, inputs@) is Ok,
            r matches Err(e) ==> add_step_result(old(self)@.steps, operator@, inputs@) == Err::<
                (Seq<usize>, u64),
                Error,
            >(e) && final(self)@ == old(self)@,
            r matches Ok(addrs) ==> {
                &&& addrs@.len() == 1
                &&& addrs@[0].step == old(self)@.steps.len()
                &&& addrs@[0].output == 0
                &&& final(self)@.steps.len() == old(self)@.steps.len() + 1
                &&& forall|j: int|
                    0 <= j < old(self)@.steps.len() ==> final(self)@.steps[j] == old(
                        self,
                    )@.steps[j]
                &&& {
                    let last = final(self)@.steps[old(self)@.steps.len() as int];
                    let inferred = add_step_result(old(self)@.steps, operator@, inputs@)->Ok_0;
                    &&& last.op == operator@
                    &&& last.inputs == inputs@
                    &&& last.shape == inferred.0
                    &&& last.hw == inferred.1
                    &&& last.cache is None
                }
            },
    {
        let ghost old_steps = self@.steps;
        let n: usize = self.steps.len();
        // Resolve every input address, collecting the hardware identities
        // and shapes of the named steps.
        let mut hws: Vec<u64> = Vec::new();
        let mut shapes: Vec<Shape> = Vec::new();
        let mut k: usize = 0;
        while k < inputs.len()
            invariant
                0 <= k <= inputs@.len(),
                n == old_steps.len(),
                old_steps == self@.steps,
                self == old(self),
                graph_wf(self@),
                hws@.len() == k,
                shapes@.len() == k,
                forall|t: int| 0 <= t < k ==> addr_valid(old_steps, #[trigger] inputs@[t]),
                forall|t: int|
                    0 <= t < k ==> #[trigger] hws@[t] == old_steps[inputs@[t].step as int].hw,
                forall|t: int|
                    0 <= t < k ==> #[trigger] shapes@[t]@ == old_steps[inputs@[t].step
                        as int].shape,
            decreases inputs@.len() - k,
        {
            let a = inputs[k];
            if a.step >= n || a.output != 0 {
                return Err(Error::InvalidGraph);
            }
            hws.push(self.steps[a.step].hardware);
            shapes.push(self.steps[a.step].shape.clone());
            k = k + 1;
        }
        proof {
            assert(addrs_valid(old_steps, inputs@));
            assert(hws@ =~= input_hws(old_steps, inputs@));
            assert(crate::operator::shapes_of(shapes@) =~= input_shapes(old_steps, inputs@));
        }
        let hardware = match operator.perform_hardware(hws.as_slice()) {
            Ok(h) => h,
            Err(e) => {
                return Err(e);
            },
        };
        let shape = match operator.perform_shape(shapes.as_slice()) {
            Ok(s) => s,
            Err(e) => {
                return Err(e);
            },
        };
        let step = Step { operator, inputs, shape, hardware, cache: None };
        let ghost new_step = step@;
        self.steps.push(step);
        let mut out: Vec<NodeAddress> = Vec::new();
        out.push(NodeAddress { step: n, output: 0 });
        proof {
            assert(self@.steps =~= old_steps.push(new_step));
            let steps = self@.steps;
            assert forall|j: int| 0 <= j < steps.len() implies step_wf(steps, j) by {
                if j < old_steps.len() {
                    assert(step_wf(old_steps, j));
                    assert(forall|t: int|
                        0 <= t <= j ==> step_core_eq(#[trigger] old_steps[t], steps[t]));
                    lemma_eval_congruence(old_steps, steps, j);
                } else {
                    assert(new_step.op == operator@);
                    assert(hw_rule(operator@, input_hws(old_steps, inputs@)) is Ok);
                    assert(shape_rule(operator@, input_shapes(old_steps, inputs@)) is Ok);
                    match operator@ {
                        OperatorModel::Constant(a) => {
                            assert(arr_wf(a));
                            assert(new_step.shape == a.shape && new_step.hw == a.hw);
                            assert(count_of(new_step.shape) <= usize::MAX);
                        },
                        _ => {
                            assert(new_step.inputs.len() == arity(op_kind(new_step.op)));
                            assert forall|t: int| 0 <= t < new_step.inputs.len() implies steps[(
                            #[trigger] new_step.inputs[t]).step as int].shape == new_step.shape
                                && steps[new_step.inputs[t].step as int].hw == new_step.hw by {
                                assert(input_shapes(old_steps, inputs@)[t] == old_steps[inputs@[t].step as int].shape);
                                assert(input_hws(old_steps, inputs@)[t] == old_steps[inputs@[t].step as int].hw);
                            }
                            assert(step_wf(old_steps, new_step.inputs[0].step as int));
                            assert(count_of(new_step.shape) <= usize::MAX);
                        },
                    }
                    assert(step_wf(steps, j));
                }
            }
        }
        Ok(out)
    }

    /// Memoized recursive forward evaluation of one step.
    ///
    /// If the step's cache is populated, a copy of the cached array is
    /// returned. Otherwise every input is calculated first, in address
    /// order, the operator is performed on the results, and the produced
    /// array is stored in the step's cache before a copy is returned. Each
    /// step is therefore computed at most once per graph lifetime, however
    /// many consumers reference it.
    fn calc_step(&mut self, i: usize) -> (r: Result<Array, Error>)
        requires
            graph_wf(old(self)@),
            i < old(self)@.steps.len(),
        ensures
            graph_wf(final(self)@),
            final(self)@.id == old(self)@.id,
            final(self)@.steps.len() == old(self)@.steps.len(),
            forall|j: int|
                0 <= j < old(self)@.steps.len() ==> step_core_eq(
                    #[trigger] final(self)@.steps[j],
                    old(self)@.steps[j],
                ),
            forall|j: int|
                0 <= j < old(self)@.steps.len() ==> ((#[trigger] old(
                    self,
                )@.steps[j].cache) is Some ==> final(self)@.steps[j].cache == old(
                    self,
                )@.steps[j].cache),
            r matches Ok(a) ==> {
                &&& eval(old(self)@.steps, i as int) == Ok::<Seq<Rat>, Error>(a@.vals)
                &&& a@.shape == old(self)@.steps[i as int].shape
                &&& a@.hw == old(self)@.steps[i as int].hw
                &&& arr_wf(a@)
            },
            r matches Err(e) ==> eval(old(self)@.steps, i as int) == Err::<Seq<Rat>, Error>(e),
        decreases i,
    {
        proof {
            assert(step_wf(old(self)@.steps, i as int));
        }
        if let Some(cached) = &self.steps[i].cache {
            let out = cached.clone();
            proof {
                assert(old(self)@.steps[i as int].cache == Some(out@));
            }
            return Ok(out);
        }
        let inputs = copy_addresses(&self.steps[i].inputs);
        let count: usize = inputs.len();
        let mut in_arrays: Vec<Array> = Vec::new();
        let mut k: usize = 0;
        while k < count
            invariant
                0 <= k <= count,
                graph_wf(self@),
                i < old(self)@.steps.len(),
                step_wf(old(self)@.steps, i as int),
                inputs@ == old(self)@.steps[i as int].inputs,
                count == inputs@.len(),
                self@.id == old(self)@.id,
                self@.steps.len() == old(self)@.steps.len(),
                forall|j: int|
                    0 <= j < old(self)@.steps.len() ==> step_core_eq(
                        #[trigger] self@.steps[j],
                        old(self)@.steps[j],
                    ),
                forall|j: int|
                    0 <= j < old(self)@.steps.len() ==> ((#[trigger] old(
                        self,
                    )@.steps[j].cache) is Some ==> self@.steps[j].cache == old(
                        self,
                    )@.steps[j].cache),
                in_arrays@.len() == k,
                forall|t: int|
                    0 <= t < k ==> {
                        &&& eval(old(self)@.steps, inputs@[t].step as int) == Ok::<
                            Seq<Rat>,
                            Error,
                        >((#[trigger] in_arrays@[t])@.vals)
                        &&& in_arrays@[t]@.shape == old(self)@.steps[inputs@[t].step as int].shape
                        &&& in_arrays@[t]@.hw == old(self)@.steps[inputs@[t].step as int].hw
                        &&& arr_wf(in_arrays@[t]@)
                    },
            decreases count - k,
        {
            let a = inputs[k];
            proof {
                assert(a.step < i);
            }
            let ghost pre = self@;
            match self.calc_step(a.step) {
                Ok(arr) => {
                    proof {
                        lemma_eval_congruence(pre.steps, old(self)@.steps, a.step as int);
                        assert(eval(old(self)@.steps, a.step as int) == Ok::<Seq<Rat>, Error>(
                            arr@.vals,
                        ));
                    }
                    in_arrays.push(arr);
                },
                Err(e) => {
                    proof {
                        lemma_eval_congruence(pre.steps, old(self)@.steps, a.step as int);
                        assert(eval(old(self)@.steps, a.step as int) == Err::<Seq<Rat>, Error>(e));
                        let st = old(self)@.steps[i as int];
                        match st.op {
                            OperatorModel::Constant(_) => {
                                assert(false);
                            },
                            OperatorModel::Neg => {
                                assert(eval(old(self)@.steps, i as int) == Err::<Seq<Rat>, Error>(
                                    e,
                                ));
                            },
                            _ => {
                                if k == 1 {
                                    assert(eval(old(self)@.steps, inputs@[0].step as int) == Ok::<
                                        Seq<Rat>,
                                        Error,
                                    >(in_arrays@[0]@.vals));
                                }
                                assert(eval(old(self)@.steps, i as int) == Err::<Seq<Rat>, Error>(
                                    e,
                                ));
                            },
                        }
                    }
                    return Err(e);
                },
            }
            k = k + 1;
        }
        let ghost mid = self@;
        let ghost models = models_of(in_arrays@);
        let ghost st = old(self)@.steps[i as int];
        proof {
            assert(step_core_eq(mid.steps[i as int], st));
            assert(models.len() == in_arrays@.len());
            assert forall|t: int| 0 <= t < models.len() implies #[trigger] models[t]
                == in_arrays@[t]@ by {}
            assert(models.map_values(|m: ArrayModel| m.hw) =~= input_hws(
                old(self)@.steps,
                inputs@,
            ));
            assert(models.map_values(|m: ArrayModel| m.shape) =~= input_shapes(
                old(self)@.steps,
                inputs@,
            ));
            match st.op {
                OperatorModel::Constant(a) => {
                    assert(hw_rule(st.op, models.map_values(|m: ArrayModel| m.hw)) == Ok::<
                        u64,
                        Error,
                    >(a.hw));
                    assert(shape_rule(st.op, models.map_values(|m: ArrayModel| m.shape)) == Ok::<
                        Seq<usize>,
                        Error,
                    >(a.shape));
                },
                OperatorModel::Neg => {
                    assert(input_hws(old(self)@.steps, inputs@)[0] == st.hw);
                    assert(input_shapes(old(self)@.steps, inputs@)[0] == st.shape);
                    assert(hw_rule(st.op, models.map_values(|m: ArrayModel| m.hw)) == Ok::<
                        u64,
                        Error,
                    >(st.hw));
                    assert(shape_rule(st.op, models.map_values(|m: ArrayModel| m.shape)) == Ok::<
                        Seq<usize>,
                        Error,
                    >(st.shape));
                },
                _ => {
                    assert(input_hws(old(self)@.steps, inputs@)[0] == st.hw);
                    assert(input_hws(old(self)@.steps, inputs@)[1] == st.hw);
                    assert(input_shapes(old(self)@.steps, inputs@)[0] == st.shape);
                    assert(input_shapes(old(self)@.steps, inputs@)[1] == st.shape);
                    assert(hw_rule(st.op, models.map_values(|m: ArrayModel| m.hw)) == Ok::<
                        u64,
                        Error,
                    >(st.hw));
                    assert(shape_rule(st.op, models.map_values(|m: ArrayModel| m.shape)) == Ok::<
                        Seq<usize>,
                        Error,
                    >(st.shape));
                },
            }
        }
        let produced = match self.steps[i].operator.perform(in_arrays.as_slice()) {
            Ok(arr) => arr,
            Err(e) => {
                proof {
                    assert(perform_model(st.op, models) == Err::<ArrayModel, Error>(e));
                    assert(eval(old(self)@.steps, i as int) == Err::<Seq<Rat>, Error>(e));
                }
                return Err(e);
            },
        };
        proof {
            assert(perform_model(st.op, models) == Ok::<ArrayModel, Error>(produced@));
            assert(eval(old(self)@.steps, i as int) == Ok::<Seq<Rat>, Error>(produced@.vals));
            assert(produced@.shape == st.shape && produced@.hw == st.hw);
        }
        let stored = produced.clone();
        let step_ref = &mut self.steps[i];
        step_ref.cache = Some(stored);
        proof {
            let now = self@;
            assert(now.steps =~= mid.steps.update(i as int, now.steps[i as int]));
            assert(step_core_eq(now.steps[i as int], mid.steps[i as int]));
            assert(now.steps[i as int].cache == Some(produced@));
            assert forall|j: int| 0 <= j < now.steps.len() implies step_wf(now.steps, j) by {
                assert(step_wf(mid.steps, j));
                assert(forall|t: int|
                    0 <= t <= j ==> step_core_eq(#[trigger] mid.steps[t], now.steps[t]));
                lemma_eval_congruence(mid.steps, now.steps, j);
                if j == i {
                    lemma_eval_congruence(old(self)@.steps, now.steps, i as int);
                }
            }
        }
        Ok(produced)
    }

    /// Lazily evaluates the value at `address`, memoizing every step along
    /// the way. The result is pinned to [`eval`] of the graph as it stood
    /// before the call; the call changes no step's operator, inputs, shape
    /// or hardware, and never appends or removes steps.
    pub fn calculate(&mut self, address: &NodeAddress) -> (r: Result<Array, Error>)
        requires
            graph_wf(old(self)@),
        ensures
            graph_wf(final(self)@),
            final(self)@.id == old(self)@.id,
            final(self)@.steps.len() == old(self)@.steps.len(),
            forall|j: int|
                0 <= j < old(self)@.steps.len() ==> step_core_eq(
                    #[trigger] final(self)@.steps[j],
                    old(self)@.steps[j],
                ),
            r matches Ok(a) ==> {
                &&& addr_valid(old(self)@.steps, *address)
                &&& eval(old(self)@.steps, address.step as int) == Ok::<Seq<Rat>, Error>(a@.vals)
                &&& a@.shape == old(self)@.steps[address.step as int].shape
                &&& a@.hw == old(self)@.steps[address.step as int].hw
                &&& arr_wf(a@)
            },
            r matches Err(e) ==> {
                &&& !addr_valid(old(self)@.steps, *address) ==> e == Error::InvalidGraph
                    && final(self)@ == old(self)@
                &&& addr_valid(old(self)@.steps, *address) ==> eval(
                    old(self)@.steps,
                    address.step as int,
                ) == Err::<Seq<Rat>, Error>(e)
            },
            r is Ok <==> addr_valid(old(self)@.steps, *address) && eval(
                old(self)@.steps,
                address.step as int,
            ) is Ok,
    {
        if address.step >= self.steps.len() || address.output != 0 {
            return Err(Error::InvalidGraph);
        }
        self.calc_step(address.step)
    }
}

/// Copies a list of addresses.
fn copy_addresses(v: &Vec<NodeAddress>) -> (r: Vec<NodeAddress>)
    ensures
        r@ == v@,
{
    let n: usize = v.len();
    let mut out: Vec<NodeAddress> = Vec::new();
    let mut i: usize = 0;
    while i < n
        invariant
            0 <= i <= n,
            n == v@.len(),
            out@.len() == i,
            forall|k: int| 0 <= k < i ==> #[trigger] out@[k] == v@[k],
        decreases n - i,
    {
        out.push(v[i]);
        i = i + 1;
    }
    proof {
        assert(out@ =~= v@);
    }
    out
}

} // verus!
