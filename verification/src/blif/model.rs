//! Modules of a netlist: a named interface and an ordered gate list,
//! propagated gate by gate, left to right.

use super::logic_gate::{gate_step, gate_wf, GateConstructionError, GateView, LogicGate};
use crate::simulation::{SignalState, Signals, Simulable};
use vstd::prelude::*;

verus! {

/// The mathematical content of a module: its name, declared interface, and
/// gates in declaration order.
#[verifier::ext_equal]
pub ghost struct ModelView {
    pub name: Seq<char>,
    pub inputs: Seq<Seq<char>>,
    pub outputs: Seq<Seq<char>>,
    pub gates: Seq<GateView>,
}

/// Folding an environment through a gate sequence, left to right: each gate
/// sees the whole environment accumulated so far and contributes its output.
pub open spec fn gates_step(
    gates: Seq<GateView>,
    env: Map<Seq<char>, SignalState>,
) -> Map<Seq<char>, SignalState>
    decreases gates.len(),
{
    if gates.len() == 0 {
        env
    } else {
        gates_step(gates.drop_first(), gate_step(gates.first(), env))
    }
}

/// One level of netlist hierarchy: declared inputs and outputs (interface
/// metadata) and an ordered sequence of gates.
#[derive(Debug, PartialEq, Clone)]
pub struct Model {
    name: String,
    inputs: Vec<String>,
    outputs: Vec<String>,
    gates: Vec<LogicGate>,
}

impl View for Model {
    type V = ModelView;

    closed spec fn view(&self) -> ModelView {
        ModelView {
            name: self.name@,
            inputs: self.inputs@.map_values(|s: String| s@),
            outputs: self.outputs@.map_values(|s: String| s@),
            gates: self.gates@.map_values(|g: LogicGate| g@),
        }
    }
}

impl Model {
    /// Plain constructor from a complete field set.
    pub fn new(
        name: String,
        inputs: Vec<String>,
        outputs: Vec<String>,
        gates: Vec<LogicGate>,
    ) -> (r: Model)
        ensures
            r@ == (ModelView {
                name: name@,
                inputs: inputs@.map_values(|s: String| s@),
                outputs: outputs@.map_values(|s: String| s@),
                gates: gates@.map_values(|g: LogicGate| g@),
            }),
    {
        Model { name, inputs, outputs, gates }
    }
}

impl Simulable for Model {
    open spec fn spec_stim(
        &self,
        env: Map<Seq<char>, SignalState>,
    ) -> Map<Seq<char>, SignalState> {
        gates_step(self@.gates, env)
    }

    /// Propagates through each gate in declaration order; a gate's inputs are
    /// resolvable only if bound by the caller or an earlier gate, else they
    /// default to `Unknown` — no dependency analysis is performed.
    fn stim(&self, signals: Signals) -> (r: Signals) {
        let n = self.gates.len();
        let mut env = signals;
        let mut i: usize = 0;
        proof {
            assert(self@.gates.skip(0) =~= self@.gates);
        }
        while i < n
            invariant
                i <= n,
                n == self.gates@.len(),
                env.wf(),
                gates_step(self@.gates.skip(i as int), env@) == gates_step(
                    self@.gates,
                    signals@,
                ),
            decreases n - i,
        {
            proof {
                let rest = self@.gates.skip(i as int);
                assert(rest.first() == self@.gates[i as int]);
                assert(rest.drop_first() =~= self@.gates.skip(i as int + 1));
            }
            env = self.gates[i].stim(env);
            i += 1;
        }
        proof {
            assert(self@.gates.skip(n as int) =~= Seq::<GateView>::empty());
        }
        env
    }
}

/// A builder accumulating the parts of a module.
pub struct ModelBuilder {
    name: String,
    inputs: Vec<String>,
    outputs: Vec<String>,
    gates: Vec<LogicGate>,
}

impl ModelBuilder {
    pub closed spec fn name_spec(&self) -> Seq<char> {
        self.name@
    }

    pub closed spec fn inputs_spec(&self) -> Seq<Seq<char>> {
        self.inputs@.map_values(|s: String| s@)
    }

    pub closed spec fn outputs_spec(&self) -> Seq<Seq<char>> {
        self.outputs@.map_values(|s: String| s@)
    }

    pub closed spec fn gates_spec(&self) -> Seq<GateView> {
        self.gates@.map_values(|g: LogicGate| g@)
    }

    /// The module this builder denotes.
    pub open spec fn model_spec(&self) -> ModelView {
        ModelView {
            name: self.name_spec(),
            inputs: self.inputs_spec(),
            outputs: self.outputs_spec(),
            gates: self.gates_spec(),
        }
    }

    pub fn new(name: &str) -> (r: ModelBuilder)
        ensures
            r.name_spec() == name@,
            r.inputs_spec() == Seq::<Seq<char>>::empty(),
            r.outputs_spec() == Seq::<Seq<char>>::empty(),
            r.gates_spec() == Seq::<GateView>::empty(),
    {
        let r = ModelBuilder {
            name: name.to_owned(),
            inputs: Vec::new(),
            outputs: Vec::new(),
            gates: Vec::new(),
        };
        proof {
            assert(r.inputs_spec() =~= Seq::<Seq<char>>::empty());
            assert(r.outputs_spec() =~= Seq::<Seq<char>>::empty());
            assert(r.gates_spec() =~= Seq::<GateView>::empty());
        }
        r
    }

    /// Appends one declared input name.
    pub fn add_input(self, input: &str) -> (r: ModelBuilder)
        ensures
            r.name_spec() == self.name_spec(),
            r.inputs_spec() == self.inputs_spec().push(input@),
            r.outputs_spec() == self.outputs_spec(),
            r.gates_spec() == self.gates_spec(),
    {
        let ModelBuilder { name, mut inputs, outputs, gates } = self;
        inputs.push(input.to_owned());
        let r = ModelBuilder { name, inputs, outputs, gates };
        proof {
            assert(r.inputs_spec() =~= self.inputs_spec().push(input@));
        }
        r
    }

    /// Appends each name of `inputs`, in order.
    pub fn add_inputs(self, inputs: Vec<String>) -> (r: ModelBuilder)
        ensures
            r.name_spec() == self.name_spec(),
            r.inputs_spec() == self.inputs_spec() + inputs@.map_values(|s: String| s@),
            r.outputs_spec() == self.outputs_spec(),
            r.gates_spec() == self.gates_spec(),
    {
        let n = inputs.len();
        let mut b = self;
        let mut i: usize = 0;
        while i < n
            invariant
                i <= n,
                n == inputs@.len(),
                b.name_spec() == self.name_spec(),
                b.inputs_spec() == self.inputs_spec() + inputs@.map_values(|s: String| s@)
                    .take(i as int),
                b.outputs_spec() == self.outputs_spec(),
                b.gates_spec() == self.gates_spec(),
            decreases n - i,
        {
            b = b.add_input(inputs[i].as_str());
            proof {
                assert(b.inputs_spec() =~= self.inputs_spec() + inputs@.map_values(
                    |s: String| s@,
                ).take(i as int + 1));
            }
            i += 1;
        }
        proof {
            assert(b.inputs_spec() =~= self.inputs_spec() + inputs@.map_values(|s: String| s@));
        }
        b
    }

    /// Appends one declared output name.
    pub fn add_output(self, output: &str) -> (r: ModelBuilder)
        ensures
            r.name_spec() == self.name_spec(),
            r.inputs_spec() == self.inputs_spec(),
            r.outputs_spec() == self.outputs_spec().push(output@),
            r.gates_spec() == self.gates_spec(),
    {
        let ModelBuilder { name, inputs, mut outputs, gates } = self;
        outputs.push(output.to_owned());
        let r = ModelBuilder { name, inputs, outputs, gates };
        proof {
            assert(r.outputs_spec() =~= self.outputs_spec().push(output@));
        }
        r
    }

    /// Appends each name of `outputs`, in order.
    pub fn add_outputs(self, outputs: Vec<String>) -> (r: ModelBuilder)
        ensures
            r.name_spec() == self.name_spec(),
            r.inputs_spec() == self.inputs_spec(),
            r.outputs_spec() == self.outputs_spec() + outputs@.map_values(|s: String| s@),
            r.gates_spec() == self.gates_spec(),
    {
        let n = outputs.len();
        let mut b = self;
        let mut i: usize = 0;
        while i < n
            invariant
                i <= n,
                n == outputs@.len(),
                b.name_spec() == self.name_spec(),
                b.inputs_spec() == self.inputs_spec(),
                b.outputs_spec() == self.outputs_spec() + outputs@.map_values(|s: String| s@)
                    .take(i as int),
                b.gates_spec() == self.gates_spec(),
            decreases n - i,
        {
            b = b.add_output(outputs[i].as_str());
            proof {
                assert(b.outputs_spec() =~= self.outputs_spec() + outputs@.map_values(
                    |s: String| s@,
                ).take(i as int + 1));
            }
            i += 1;
        }
        proof {
            assert(b.outputs_spec() =~= self.outputs_spec() + outputs@.map_values(
                |s: String| s@,
            ));
        }
        b
    }

    /// Appends one gate; declaration order is evaluation order.
    pub fn add_logic_gate(self, gate: LogicGate) -> (r: ModelBuilder)
        ensures
            r.name_spec() == self.name_spec(),
            r.inputs_spec() == self.inputs_spec(),
            r.outputs_spec() == self.outputs_spec(),
            r.gates_spec() == self.gates_spec().push(gate@),
    {
        let ModelBuilder { name, inputs, outputs, mut gates } = self;
        let ghost gate_view = gate@;
        gates.push(gate);
        let r = ModelBuilder { name, inputs, outputs, gates };
        proof {
            assert(r.gates_spec() =~= self.gates_spec().push(gate_view));
        }
        r
    }

    /// Appends each gate of `logic_gates`, in order.
    pub fn add_logic_gates(self, logic_gates: Vec<LogicGate>) -> (r: ModelBuilder)
        ensures
            r.name_spec() == self.name_spec(),
            r.inputs_spec() == self.inputs_spec(),
            r.outputs_spec() == self.outputs_spec(),
            r.gates_spec() == self.gates_spec() + logic_gates@.map_values(|g: LogicGate| g@),
    {
        let ghost added = logic_gates@.map_values(|g: LogicGate| g@);
        let ModelBuilder { name, inputs, outputs, mut gates } = self;
        let mut more = logic_gates;
        gates.append(&mut more);
        let r = ModelBuilder { name, inputs, outputs, gates };
        proof {
            assert(r.gates_spec() =~= self.gates_spec() + added);
        }
        r
    }

    pub fn build(self) -> (r: Model)
        ensures
            r@ == self.model_spec(),
    {
        Model {
            name: self.name,
            inputs: self.inputs,
            outputs: self.outputs,
            gates: self.gates,
        }
    }
}


/// Shape invariant of a module: every gate's cover rows are as wide as the
/// gate's input list.
pub open spec fn model_covers_wf(m: ModelView) -> bool {
    forall|j: int| 0 <= j < m.gates.len() ==> gate_wf(#[trigger] m.gates[j])
}

/// Some gate of the module has `expected` declared inputs and a cover row of
/// width `found`.
pub open spec fn gate_width_mismatch(m: ModelView, expected: nat, found: nat) -> bool {
    exists|j: int, k: int|
        #![trigger m.gates[j].cover[k]]
        0 <= j < m.gates.len() && 0 <= k < m.gates[j].cover.len() && m.gates[j].inputs.len()
            == expected && m.gates[j].cover[k].0.len() == found
}

impl Model {
    /// Checks the cover-width invariant of every gate, in declaration order:
    /// the first row whose width disagrees with its gate's input count is
    /// reported as a construction error.
    #[verifier::loop_isolation(false)]
    pub fn check_gate_widths(&self) -> (r: Result<(), GateConstructionError>)
        ensures
            r is Ok <==> model_covers_wf(self@),
            r matches Err(e) ==> (e matches GateConstructionError::CoverWidth {
                expected,
                found,
            } && gate_width_mismatch(self@, expected as nat, found as nat) && found != expected),
    {
        let ng = self.gates.len();
        let mut j: usize = 0;
        while j < ng
            invariant
                j <= ng,
                forall|a: int| 0 <= a < j ==> gate_wf(#[trigger] self@.gates[a]),
            decreases ng - j,
        {
            let expected = self.gates[j].inputs.len();
            let nr = self.gates[j].single_output_cover.len();
            let mut k: usize = 0;
            while k < nr
                invariant
                    j < ng,
                    k <= nr,
                    expected == self@.gates[j as int].inputs.len(),
                    nr == self@.gates[j as int].cover.len(),
                    forall|b: int| 0 <= b < k ==> (#[trigger] self@.gates[j as int].cover[b]).0.len()
                        == expected,
                decreases nr - k,
            {
                let found = self.gates[j].single_output_cover[k].0.len();
                proof {
                    assert(self@.gates[j as int].cover[k as int] == (
                        self.gates@[j as int].single_output_cover@[k as int].0@,
                        self.gates@[j as int].single_output_cover@[k as int].1,
                    ));
                }
                if found != expected {
                    proof {
                        assert(gate_width_mismatch(self@, expected as nat, found as nat));
                        assert(!gate_wf(self@.gates[j as int]));
                    }
                    return Err(GateConstructionError::CoverWidth { expected, found });
                }
                k += 1;
            }
            proof {
                assert(gate_wf(self@.gates[j as int]));
            }
            j += 1;
        }
        Ok(())
    }
}

} // verus!
