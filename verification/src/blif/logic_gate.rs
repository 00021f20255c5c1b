//! Combinational gates: a ternary single-output cover over an ordered input
//! list, evaluated with default-Low, sum-of-products semantics.

use crate::simulation::{spec_get, Signal, SignalState, Signals, Simulable};
use vstd::prelude::*;

verus! {

/// One position of a ternary cover pattern, or the polarity of a cover row.
#[derive(Debug, PartialEq, Eq, Structural, Hash, Clone, Copy)]
pub enum InputValue {
    /// "1"
    Uncomplemented,
    /// "0"
    Complemented,
    /// "-"
    NotUsed,
}

/// The ternary value denoted by a cover character, for characters in
/// `{'0', '1', '-'}`; other characters denote no ternary value.
pub open spec fn spec_input_value_of_char(c: char) -> Option<InputValue> {
    if c == '1' {
        Some(InputValue::Uncomplemented)
    } else if c == '0' {
        Some(InputValue::Complemented)
    } else if c == '-' {
        Some(InputValue::NotUsed)
    } else {
        None
    }
}

/// The cover character that renders a ternary value.
pub open spec fn spec_char_of_input_value(v: InputValue) -> char {
    match v {
        InputValue::Uncomplemented => '1',
        InputValue::Complemented => '0',
        InputValue::NotUsed => '-',
    }
}

impl InputValue {
    /// Parses a single cover character; any character outside `{'0','1','-'}`
    /// is a format error.
    pub fn try_from_char(c: char) -> (r: Result<InputValue, &'static str>)
        ensures
            match r {
                Ok(v) => spec_input_value_of_char(c) == Some(v),
                Err(m) => spec_input_value_of_char(c) is None
                    && m@ == "expected [0|1|-] to create a InputValue"@,
            },
    {
        match c {
            '1' => Ok(InputValue::Uncomplemented),
            '0' => Ok(InputValue::Complemented),
            '-' => Ok(InputValue::NotUsed),
            _ => Err("expected [0|1|-] to create a InputValue"),
        }
    }

    /// Renders the ternary value back to its cover character.
    pub fn to_char(self) -> (r: char)
        ensures
            r == spec_char_of_input_value(self),
    {
        match self {
            InputValue::Uncomplemented => '1',
            InputValue::Complemented => '0',
            InputValue::NotUsed => '-',
        }
    }
}

/// Ternary parse round-trip: each character in `{'0','1','-'}` parses to a
/// ternary value that renders back to the same character; every other
/// character fails to parse.
pub proof fn lemma_ternary_round_trip(c: char)
    ensures
        spec_input_value_of_char(c) is Some <==> (c == '0' || c == '1' || c == '-'),
        spec_input_value_of_char(c) matches Some(v) ==> spec_char_of_input_value(v) == c,
{
}

/// The mathematical content of a gate: input names, output name, and the
/// ternary cover rows in declaration order.
#[verifier::ext_equal]
pub ghost struct GateView {
    pub inputs: Seq<Seq<char>>,
    pub output: Seq<char>,
    pub cover: Seq<(Seq<InputValue>, InputValue)>,
}

/// Whether one bound state satisfies one pattern position: `DontCare` accepts
/// anything; `Asserted` requires `High`; `Negated` requires `Low`. `Unknown`
/// never satisfies `Asserted` or `Negated`.
pub open spec fn entry_matches(p: InputValue, s: SignalState) -> bool {
    match p {
        InputValue::NotUsed => true,
        InputValue::Uncomplemented => s == SignalState::High,
        InputValue::Complemented => s == SignalState::Low,
    }
}

/// Whether a cover pattern matches a vector of bound states, position by
/// position over the positions both have.
pub open spec fn row_matches(pattern: Seq<InputValue>, bound: Seq<SignalState>) -> bool {
    forall|i: int|
        0 <= i < pattern.len() && i < bound.len() ==> #[trigger] entry_matches(
            pattern[i],
            bound[i],
        )
}

/// The states an environment binds to a gate's inputs, positionally; missing
/// names resolve to `Unknown`.
pub open spec fn bound_states(
    inputs: Seq<Seq<char>>,
    env: Map<Seq<char>, SignalState>,
) -> Seq<SignalState> {
    Seq::new(inputs.len(), |i: int| spec_get(env, inputs[i]))
}

/// Whether a cover row drives the output `High` under the given bound states:
/// its pattern matches and its polarity is asserted.
pub open spec fn row_asserts(
    row: (Seq<InputValue>, InputValue),
    bound: Seq<SignalState>,
) -> bool {
    row_matches(row.0, bound) && row.1 == InputValue::Uncomplemented
}

/// A gate's output under an environment: `High` exactly when some cover row
/// asserts it, `Low` otherwise (the off-set is implicit).
pub open spec fn gate_eval(g: GateView, env: Map<Seq<char>, SignalState>) -> SignalState {
    if exists|k: int| 0 <= k < g.cover.len() && #[trigger] row_asserts(
        g.cover[k],
        bound_states(g.inputs, env),
    ) {
        SignalState::High
    } else {
        SignalState::Low
    }
}

/// What a gate's propagation does to an environment: bind its output to its
/// evaluated state, leaving every other name as it was.
pub open spec fn gate_step(
    g: GateView,
    env: Map<Seq<char>, SignalState>,
) -> Map<Seq<char>, SignalState> {
    env.insert(g.output, gate_eval(g, env))
}

/// Shape invariant of a gate: every cover row is as wide as the input list.
pub open spec fn gate_wf(g: GateView) -> bool {
    forall|k: int| 0 <= k < g.cover.len() ==> (#[trigger] g.cover[k]).0.len() == g.inputs.len()
}

/// Default-Low, sum-of-products law: a gate with an empty cover yields `Low`
/// under every environment; in general the output is `High` exactly when at
/// least one cover row matches the bound inputs with asserted polarity, and
/// is `Low` otherwise; propagation binds the output name to that state.
pub proof fn lemma_gate_sum_of_products(g: GateView, env: Map<Seq<char>, SignalState>)
    ensures
        g.cover.len() == 0 ==> gate_eval(g, env) == SignalState::Low,
        gate_eval(g, env) == SignalState::High <==> exists|k: int|
            0 <= k < g.cover.len() && #[trigger] row_asserts(
                g.cover[k],
                bound_states(g.inputs, env),
            ),
        gate_eval(g, env) == SignalState::High || gate_eval(g, env) == SignalState::Low,
        spec_get(gate_step(g, env), g.output) == gate_eval(g, env),
{
}

/// Don't-care absorption: a row of only `DontCare` symbols matches any fully
/// bound (non-`Unknown`) input vector of the correct width.
pub proof fn lemma_dont_care_absorption(pattern: Seq<InputValue>, bound: Seq<SignalState>)
    requires
        forall|i: int| 0 <= i < pattern.len() ==> pattern[i] == InputValue::NotUsed,
        bound.len() == pattern.len(),
        forall|i: int| 0 <= i < bound.len() ==> bound[i] != SignalState::Unknown,
    ensures
        row_matches(pattern, bound),
{
    assert forall|i: int| 0 <= i < pattern.len() && i < bound.len() implies #[trigger] entry_matches(
        pattern[i],
        bound[i],
    ) by {
        assert(pattern[i] == InputValue::NotUsed);
    }
}

/// Unresolved-signal defaulting: a name absent from an environment resolves
/// to `Unknown`, and `Unknown` never satisfies an `Asserted` or `Negated`
/// pattern position.
pub proof fn lemma_unresolved_defaults_to_unknown(
    env: Map<Seq<char>, SignalState>,
    name: Seq<char>,
)
    ensures
        !env.dom().contains(name) ==> spec_get(env, name) == SignalState::Unknown,
        forall|p: InputValue| p != InputValue::NotUsed ==> !#[trigger] entry_matches(
            p,
            SignalState::Unknown,
        ),
{
}

/// One combinational gate: an ordered input list, one output name, and a
/// truth-table-like cover. Immutable once constructed; position `i` of each
/// cover pattern corresponds to `inputs[i]`.
#[derive(Debug, PartialEq, Clone)]
pub struct LogicGate {
    pub inputs: Vec<String>,
    pub output: String,
    pub single_output_cover: Vec<(Vec<InputValue>, InputValue)>,
}

impl View for LogicGate {
    type V = GateView;

    open spec fn view(&self) -> GateView {
        GateView {
            inputs: self.inputs@.map_values(|s: String| s@),
            output: self.output@,
            cover: self.single_output_cover@.map_values(
                |row: (Vec<InputValue>, InputValue)| (row.0@, row.1),
            ),
        }
    }
}

impl LogicGate {
    /// Plain constructor from a complete field set; the width invariant is
    /// the builder's and the parser's to check.
    pub fn new(
        inputs: Vec<String>,
        output: String,
        single_output_cover: Vec<(Vec<InputValue>, InputValue)>,
    ) -> (r: Self)
        ensures
            r == (LogicGate { inputs, output, single_output_cover }),
    {
        Self { inputs, output, single_output_cover }
    }
}

/// Whether a cover pattern matches the bound input states.
fn apply(input_values: &Vec<InputValue>, signals: &Vec<SignalState>) -> (r: bool)
    ensures
        r == row_matches(input_values@, signals@),
{
    let n = input_values.len();
    let m = signals.len();
    let mut i: usize = 0;
    while i < n && i < m
        invariant
            i <= n,
            n == input_values@.len(),
            m == signals@.len(),
            forall|j: int| 0 <= j < i && j < m ==> #[trigger] entry_matches(
                input_values@[j],
                signals@[j],
            ),
        decreases n - i,
    {
        let p = input_values[i];
        let s = signals[i];
        let conflict = match p {
            InputValue::NotUsed => false,
            InputValue::Uncomplemented => s != SignalState::High,
            InputValue::Complemented => s != SignalState::Low,
        };
        if conflict {
            proof {
                assert(!entry_matches(input_values@[i as int], signals@[i as int]));
            }
            return false;
        }
        i += 1;
    }
    true
}

impl Simulable for LogicGate {
    open spec fn spec_stim(
        &self,
        env: Map<Seq<char>, SignalState>,
    ) -> Map<Seq<char>, SignalState> {
        gate_step(self@, env)
    }

    fn stim(&self, signals: Signals) -> (r: Signals) {
        let n = self.inputs.len();
        let mut bound: Vec<SignalState> = Vec::new();
        let mut i: usize = 0;
        while i < n
            invariant
                i <= n,
                n == self.inputs@.len(),
                signals.wf(),
                bound@.len() == i,
                forall|j: int| 0 <= j < i ==> bound@[j] == spec_get(signals@, self@.inputs[j]),
            decreases n - i,
        {
            bound.push(signals.get(self.inputs[i].as_str()));
            i += 1;
        }
        proof {
            assert(bound@ =~= bound_states(self@.inputs, signals@));
        }

        let rows = self.single_output_cover.len();
        let mut high = false;
        let mut k: usize = 0;
        while k < rows
            invariant
                k <= rows,
                rows == self.single_output_cover@.len(),
                bound@ == bound_states(self@.inputs, signals@),
                high <==> exists|r: int| 0 <= r < k && #[trigger] row_asserts(
                    self@.cover[r],
                    bound@,
                ),
            decreases rows - k,
        {
            if apply(&self.single_output_cover[k].0, &bound) {
                if self.single_output_cover[k].1 == InputValue::Uncomplemented {
                    proof {
                        assert(row_asserts(self@.cover[k as int], bound@));
                    }
                    high = true;
                }
            }
            k += 1;
        }

        let mut output = Signal::new(self.output.as_str());
        if high {
            output.set_high();
        } else {
            output.set_low();
        }
        let mut result = signals;
        result.add_signal(output);
        result
    }
}

/// Construction error for a gate whose parts do not fit together.
#[derive(Debug, PartialEq, Eq, Structural, Clone, Copy)]
pub enum GateConstructionError {
    /// No output name was set before `build`.
    MissingOutput,
    /// A cover row's pattern width disagrees with the declared input count.
    CoverWidth { expected: usize, found: usize },
}

/// A builder accumulating the parts of a gate; its single `build` step checks
/// the cover-width invariant.
pub struct LogicGateBuilder {
    inputs: Vec<String>,
    output: Option<String>,
    cover: Vec<(Vec<InputValue>, InputValue)>,
}

impl LogicGateBuilder {
    pub closed spec fn inputs_spec(&self) -> Seq<Seq<char>> {
        self.inputs@.map_values(|s: String| s@)
    }

    pub closed spec fn output_spec(&self) -> Option<Seq<char>> {
        match self.output {
            Some(s) => Some(s@),
            None => None,
        }
    }

    pub closed spec fn cover_spec(&self) -> Seq<(Seq<InputValue>, InputValue)> {
        self.cover@.map_values(|row: (Vec<InputValue>, InputValue)| (row.0@, row.1))
    }

    /// What this builder denotes, once an output name has been chosen.
    pub open spec fn gate_spec(&self) -> GateView
        recommends
            self.output_spec() is Some,
    {
        GateView {
            inputs: self.inputs_spec(),
            output: self.output_spec().unwrap(),
            cover: self.cover_spec(),
        }
    }

    pub fn new() -> (r: LogicGateBuilder)
        ensures
            r.inputs_spec() == Seq::<Seq<char>>::empty(),
            r.output_spec() is None,
            r.cover_spec() == Seq::<(Seq<InputValue>, InputValue)>::empty(),
    {
        let r = LogicGateBuilder { inputs: Vec::new(), output: None, cover: Vec::new() };
        proof {
            assert(r.inputs_spec() =~= Seq::<Seq<char>>::empty());
            assert(r.cover_spec() =~= Seq::<(Seq<InputValue>, InputValue)>::empty());
        }
        r
    }

    /// Appends one input name; its position is the pattern position it binds.
    pub fn add_input(self, input: &str) -> (r: LogicGateBuilder)
        ensures
            r.inputs_spec() == self.inputs_spec().push(input@),
            r.output_spec() == self.output_spec(),
            r.cover_spec() == self.cover_spec(),
    {
        let mut inputs = self.inputs;
        inputs.push(input.to_owned());
        let r = LogicGateBuilder { inputs, output: self.output, cover: self.cover };
        proof {
            assert(r.inputs_spec() =~= self.inputs_spec().push(input@));
        }
        r
    }

    /// Chooses the output name, replacing any earlier choice.
    pub fn set_output(self, output: &str) -> (r: LogicGateBuilder)
        ensures
            r.inputs_spec() == self.inputs_spec(),
            r.output_spec() == Some(output@),
            r.cover_spec() == self.cover_spec(),
    {
        LogicGateBuilder { inputs: self.inputs, output: Some(output.to_owned()), cover: self.cover }
    }

    /// Appends one cover row: a ternary pattern and an output polarity.
    pub fn add_truth_table_row(self, row: (Vec<InputValue>, InputValue)) -> (r: LogicGateBuilder)
        ensures
            r.inputs_spec() == self.inputs_spec(),
            r.output_spec() == self.output_spec(),
            r.cover_spec() == self.cover_spec().push((row.0@, row.1)),
    {
        let mut cover = self.cover;
        let ghost row_view = (row.0@, row.1);
        cover.push(row);
        let r = LogicGateBuilder { inputs: self.inputs, output: self.output, cover };
        proof {
            assert(r.cover_spec() =~= self.cover_spec().push(row_view));
        }
        r
    }

    /// Assembles a gate from the accumulated parts. Fails with
    /// `GateConstructionError` when no output name was chosen, or when some
    /// cover row's width differs from the input count — for every input
    /// count, including zero.
    #[verifier::loop_isolation(false)]
    pub fn build(self) -> (r: Result<LogicGate, GateConstructionError>)
        ensures
            r is Ok <==> self.output_spec() is Some && gate_wf(self.gate_spec()),
            r matches Ok(g) ==> g@ == self.gate_spec(),
            self.output_spec() is None ==> r == Err::<LogicGate, _>(
                GateConstructionError::MissingOutput,
            ),
            self.output_spec() is Some ==> (r matches Err(e) ==> (e matches
                GateConstructionError::CoverWidth { expected, found } && expected
                == self.inputs_spec().len() && found != expected && exists|k: int|
                0 <= k < self.cover_spec().len() && (#[trigger] self.cover_spec()[k]).0.len()
                    == found)),
    {
        let LogicGateBuilder { inputs, output, cover } = self;
        let output = match output {
            Some(o) => o,
            None => {
                return Err(GateConstructionError::MissingOutput);
            }
        };
        let expected = inputs.len();
        let rows = cover.len();
        let mut k: usize = 0;
        while k < rows
            invariant
                k <= rows,
                forall|j: int| 0 <= j < k ==> (#[trigger] self.cover_spec()[j]).0.len()
                    == expected,
            decreases rows - k,
        {
            let found = cover[k].0.len();
            proof {
                assert(self.cover_spec()[k as int] == (cover@[k as int].0@, cover@[k as int].1));
            }
            if found != expected {
                proof {
                    assert(self.gate_spec().cover[k as int].0.len() != self.gate_spec().inputs.len());
                    assert(!gate_wf(self.gate_spec()));
                }
                return Err(GateConstructionError::CoverWidth { expected, found });
            }
            k += 1;
        }
        let r = LogicGate { inputs, output, single_output_cover: cover };
        proof {
            assert(gate_wf(self.gate_spec()));
            assert(r@ =~~= self.gate_spec());
        }
        Ok(r)
    }
}

} // verus!
