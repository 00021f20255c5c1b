use blif_sim::blif::parse;
use blif_sim::blif::parser::parse_logic_gate;
use blif_sim::blif::parser::parse_single_output_cover;
use blif_sim::blif::parser::BlifError;
use blif_sim::blif::parser::GrammarRule;
use blif_sim::blif::parser::ParseError;
use blif_sim::blif::GateConstructionError;
use blif_sim::blif::InputValue;
use blif_sim::blif::LogicGate;
use blif_sim::blif::LogicGateBuilder;
use blif_sim::blif::ModelBuilder;
use blif_sim::simulation::Signal;
use blif_sim::simulation::SignalState;
use blif_sim::simulation::Signals;
use blif_sim::simulation::SignalsBuilder;
use blif_sim::simulation::Simulable;

fn inverter(input: &str, output: &str) -> LogicGate {
    LogicGate::new(
        vec![input.into()],
        output.into(),
        vec![(vec![InputValue::Complemented], InputValue::Uncomplemented)],
    )
}

#[test]
fn ternary_round_trip() {
    for c in ['0', '1', '-'] {
        let value = InputValue::try_from_char(c).unwrap();
        assert_eq!(value.to_char(), c);
    }
    for c in ['2', 'x', ' ', '\n', '.'] {
        let err = InputValue::try_from_char(c).unwrap_err();
        assert_eq!(err, "expected [0|1|-] to create a InputValue");
    }
}

#[test]
fn cover_width_mismatch_zero_inputs() {
    let built = LogicGateBuilder::new()
        .set_output("y")
        .add_truth_table_row((vec![InputValue::NotUsed], InputValue::Uncomplemented))
        .build();

    assert_eq!(
        built,
        Err(GateConstructionError::CoverWidth {
            expected: 0,
            found: 1
        })
    );
}

#[test]
fn cover_width_mismatch_two_inputs() {
    let built = LogicGateBuilder::new()
        .add_input("a")
        .add_input("b")
        .set_output("y")
        .add_truth_table_row((
            vec![
                InputValue::Uncomplemented,
                InputValue::Uncomplemented,
                InputValue::Uncomplemented,
            ],
            InputValue::Uncomplemented,
        ))
        .build();

    assert_eq!(
        built,
        Err(GateConstructionError::CoverWidth {
            expected: 2,
            found: 3
        })
    );
}

#[test]
fn cover_width_matching_builds() {
    let built = LogicGateBuilder::new()
        .add_input("a")
        .add_input("b")
        .set_output("y")
        .add_truth_table_row((
            vec![InputValue::Uncomplemented, InputValue::NotUsed],
            InputValue::Uncomplemented,
        ))
        .build();

    assert!(built.is_ok());
}

#[test]
fn builder_missing_output() {
    let built = LogicGateBuilder::new().add_input("a").build();

    assert_eq!(built, Err(GateConstructionError::MissingOutput));
}

#[test]
fn empty_cover_defaults_low() {
    let gate = LogicGate::new(vec!["a".into()], "y".into(), vec![]);

    for state in [SignalState::High, SignalState::Low, SignalState::Unknown] {
        let res = gate.stim(SignalsBuilder::new().add_signal("a", state).build());
        assert_eq!(res.get("y"), SignalState::Low);
    }
}

#[test]
fn dont_care_row_absorbs_every_bound_vector() {
    let gate = LogicGate::new(
        vec!["a".into(), "b".into()],
        "y".into(),
        vec![(
            vec![InputValue::NotUsed, InputValue::NotUsed],
            InputValue::Uncomplemented,
        )],
    );

    for a in [SignalState::High, SignalState::Low] {
        for b in [SignalState::High, SignalState::Low] {
            let res = gate.stim(
                SignalsBuilder::new()
                    .add_signal("a", a)
                    .add_signal("b", b)
                    .build(),
            );
            assert_eq!(res.get("y"), SignalState::High);
        }
    }
}

#[test]
fn unresolved_name_queries_unknown() {
    assert_eq!(Signals::new().get("nope"), SignalState::Unknown);

    let env = SignalsBuilder::new()
        .add_signal("a", SignalState::High)
        .build();
    assert_eq!(env.get("b"), SignalState::Unknown);
    assert_eq!(env.get("a"), SignalState::High);
}

#[test]
fn unknown_never_satisfies_a_bound_position() {
    // The input name is never bound, so it resolves to Unknown; neither an
    // Asserted nor a Negated pattern position accepts it.
    let asserted = LogicGate::new(
        vec!["a".into()],
        "y".into(),
        vec![(vec![InputValue::Uncomplemented], InputValue::Uncomplemented)],
    );
    let negated = inverter("a", "y");

    assert_eq!(asserted.stim(Signals::new()).get("y"), SignalState::Low);
    assert_eq!(negated.stim(Signals::new()).get("y"), SignalState::Low);
}

#[test]
fn sequential_evaluation_order() {
    // Two inverters in data-dependency order: t is bound before the second
    // gate consumes it, so y is the double negation of a.
    let in_order = ModelBuilder::new("m")
        .add_input("a")
        .add_output("y")
        .add_logic_gate(inverter("a", "t"))
        .add_logic_gate(inverter("t", "y"))
        .build();
    let res = in_order.stim(
        SignalsBuilder::new()
            .add_signal("a", SignalState::High)
            .build(),
    );
    assert_eq!(res.get("t"), SignalState::Low);
    assert_eq!(res.get("y"), SignalState::High);

    // Reversed: the consumer of t runs first, t is still Unknown then, an
    // Unknown input matches no Negated position, and y stays Low.
    let reversed = ModelBuilder::new("m")
        .add_input("a")
        .add_output("y")
        .add_logic_gate(inverter("t", "y"))
        .add_logic_gate(inverter("a", "t"))
        .build();
    let res = reversed.stim(
        SignalsBuilder::new()
            .add_signal("a", SignalState::High)
            .build(),
    );
    assert_eq!(res.get("t"), SignalState::Low);
    assert_eq!(res.get("y"), SignalState::Low);
}

#[test]
fn end_to_end_and_gate_document() {
    let text = ".model m\n.inputs a b\n.outputs y\n.names a b y\n11 1\n.end\n";
    let blif = parse(text).unwrap();

    let res = blif.stim(
        SignalsBuilder::new()
            .add_signal("a", SignalState::High)
            .add_signal("b", SignalState::High)
            .build(),
    );
    assert_eq!(res.get("y"), SignalState::High);

    let res = blif.stim(
        SignalsBuilder::new()
            .add_signal("a", SignalState::High)
            .add_signal("b", SignalState::Low)
            .build(),
    );
    assert_eq!(res.get("y"), SignalState::Low);
}

#[test]
fn inverter_scenario() {
    let (gate, _) = parse_logic_gate(".names a y\n0 1\n", 0).unwrap();

    let res = gate.stim(
        SignalsBuilder::new()
            .add_signal("a", SignalState::Low)
            .build(),
    );
    assert_eq!(res.get("y"), SignalState::High);

    let res = gate.stim(
        SignalsBuilder::new()
            .add_signal("a", SignalState::High)
            .build(),
    );
    assert_eq!(res.get("y"), SignalState::Low);
}

#[test]
fn document_with_no_model_is_rejected() {
    let expected = Err(BlifError::Parse(ParseError {
        pos: 0,
        rule: GrammarRule::Document,
    }));
    assert_eq!(parse(""), expected);
    assert_eq!(parse("garbage"), expected);
    assert_eq!(parse(".model only_a_header\n"), expected);
}

#[test]
fn document_with_wrong_cover_width_is_rejected() {
    let text = ".model m\n.inputs a\n.outputs y\n.names a y\n11 1\n.end\n";
    assert_eq!(
        parse(text),
        Err(BlifError::GateConstruction(
            GateConstructionError::CoverWidth {
                expected: 1,
                found: 2
            }
        ))
    );
}

#[test]
fn trailing_text_after_last_model_is_ignored() {
    let text = ".model m\n.inputs a\n.outputs y\n.end\n and then some trailing junk";
    assert!(parse(text).is_ok());
}

#[test]
fn parse_errors_name_their_rule() {
    assert_eq!(
        parse_single_output_cover("x", 0),
        Err(ParseError {
            pos: 0,
            rule: GrammarRule::CoverRow
        })
    );
    assert_eq!(
        parse_logic_gate("not a gate", 0),
        Err(ParseError {
            pos: 0,
            rule: GrammarRule::LogicGate
        })
    );
    let err = parse("").unwrap_err();
    match err {
        BlifError::Parse(e) => {
            assert_eq!(e.describe(), "expected at least one .model ... .end block");
        }
        BlifError::GateConstruction(_) => panic!("expected a parse error"),
    }
}

#[test]
fn update_with_prefers_the_newer_value() {
    let mut env = SignalsBuilder::new()
        .add_signal("a", SignalState::High)
        .add_signal("c", SignalState::High)
        .build();
    let newer = SignalsBuilder::new()
        .add_signal("a", SignalState::Low)
        .add_signal("b", SignalState::Low)
        .build();

    env.update_with(newer);

    assert_eq!(env.get("a"), SignalState::Low);
    assert_eq!(env.get("b"), SignalState::Low);
    assert_eq!(env.get("c"), SignalState::High);
}

#[test]
fn builder_overwrites_earlier_binding_of_same_name() {
    let env = SignalsBuilder::new()
        .add_signal("a", SignalState::High)
        .add_signal("a", SignalState::Low)
        .build();
    assert_eq!(env.get("a"), SignalState::Low);
}

#[test]
fn signal_states_are_set_and_queried() {
    let mut env = Signals::new();

    let fresh = Signal::new("x");
    env.add_signal(fresh);
    assert_eq!(env.get("x"), SignalState::Unknown);

    let mut high = Signal::new("x");
    high.set_high();
    env.add_signal(high);
    assert_eq!(env.get("x"), SignalState::High);

    let mut low = Signal::new("x");
    low.set_low();
    env.add_signal(low);
    assert_eq!(env.get("x"), SignalState::Low);
}

#[test]
fn iter_lists_each_signal_once() {
    let mut env = Signals::new();
    let mut a = Signal::new("a");
    a.set_high();
    env.add_signal(a);
    let mut b = Signal::new("b");
    b.set_low();
    env.add_signal(b);
    // Overwrites do not duplicate the name.
    let mut a2 = Signal::new("a");
    a2.set_low();
    env.add_signal(a2);

    let signals = env.iter();
    assert_eq!(signals.len(), 2);

    let mut expected_a = Signal::new("a");
    expected_a.set_low();
    let mut expected_b = Signal::new("b");
    expected_b.set_low();
    assert!(signals.contains(&expected_a));
    assert!(signals.contains(&expected_b));
}

#[test]
fn zero_input_gates_are_constant() {
    let (one, _) = parse_logic_gate(".names y\n1\n", 0).unwrap();
    assert_eq!(one.stim(Signals::new()).get("y"), SignalState::High);

    let (zero, _) = parse_logic_gate(".names z\n0\n", 0).unwrap();
    assert_eq!(zero.stim(Signals::new()).get("z"), SignalState::Low);
}

#[test]
fn netlist_folds_across_models() {
    let text = ".model first\n.inputs a\n.outputs t\n.names a t\n0 1\n.end\n.model second\n.inputs t\n.outputs y\n.names t y\n0 1\n.end\n";
    let blif = parse(text).unwrap();

    let res = blif.stim(
        SignalsBuilder::new()
            .add_signal("a", SignalState::High)
            .build(),
    );
    assert_eq!(res.get("t"), SignalState::Low);
    assert_eq!(res.get("y"), SignalState::High);
}
