//! The BLIF netlist model: gates grouped into modules, modules into a
//! netlist, plus the text parser producing it.

pub mod logic_gate;
pub mod model;
pub mod parser;

pub use logic_gate::GateConstructionError;
pub use logic_gate::InputValue;
pub use logic_gate::LogicGate;
pub use logic_gate::LogicGateBuilder;
pub use model::Model;
pub use model::ModelBuilder;
pub use parser::parse;

use crate::simulation::{SignalState, Signals, Simulable};
use model::{gates_step, ModelView};
use vstd::prelude::*;

verus! {

/// The mathematical content of a netlist: its modules in document order.
#[verifier::ext_equal]
pub ghost struct BlifView {
    pub models: Seq<ModelView>,
}

/// Folding an environment through a module sequence, left to right: each
/// module sees the environment accumulated by all earlier modules.
pub open spec fn models_step(
    models: Seq<ModelView>,
    env: Map<Seq<char>, SignalState>,
) -> Map<Seq<char>, SignalState>
    decreases models.len(),
{
    if models.len() == 0 {
        env
    } else {
        models_step(models.drop_first(), gates_step(models.first().gates, env))
    }
}

/// A parsed netlist: an ordered sequence of modules, the top-level parse
/// result.
#[derive(Debug, PartialEq, Clone)]
pub struct Blif {
    models: Vec<Model>,
}

impl View for Blif {
    type V = BlifView;

    closed spec fn view(&self) -> BlifView {
        BlifView { models: self.models@.map_values(|m: Model| m@) }
    }
}

impl Blif {
    pub fn new(models: Vec<Model>) -> (r: Blif)
        ensures
            r@ == (BlifView { models: models@.map_values(|m: Model| m@) }),
    {
        Blif { models }
    }
}

impl Simulable for Blif {
    open spec fn spec_stim(
        &self,
        env: Map<Seq<char>, SignalState>,
    ) -> Map<Seq<char>, SignalState> {
        models_step(self@.models, env)
    }

    /// Propagates through each module in document order; every module
    /// receives the full environment accumulated so far.
    fn stim(&self, signals: Signals) -> (r: Signals) {
        let n = self.models.len();
        let mut env = signals;
        let mut i: usize = 0;
        proof {
            assert(self@.models.skip(0) =~= self@.models);
        }
        while i < n
            invariant
                i <= n,
                n == self.models@.len(),
                env.wf(),
                models_step(self@.models.skip(i as int), env@) == models_step(
                    self@.models,
                    signals@,
                ),
            decreases n - i,
        {
            proof {
                let rest = self@.models.skip(i as int);
                assert(rest.first() == self@.models[i as int]);
                assert(rest.drop_first() =~= self@.models.skip(i as int + 1));
            }
            env = self.models[i].stim(env);
            i += 1;
        }
        proof {
            assert(self@.models.skip(n as int) =~= Seq::<ModelView>::empty());
        }
        env
    }
}

} // verus!
