use blif_sim::blif::InputValue;
use blif_sim::blif::LogicGateBuilder;
use blif_sim::blif::ModelBuilder;
use blif_sim::simulation::SignalState;
use blif_sim::simulation::SignalsBuilder;
use blif_sim::simulation::Simulable;

#[test]
fn test_model_not2() {
    let not2 = ModelBuilder::new("not2")
        .add_input("a")
        .add_input("b")
        .add_output("o_a")
        .add_output("o_b")
        .add_logic_gate(
            LogicGateBuilder::new()
                .add_input("a")
                .set_output("o_a")
                .add_truth_table_row((
                    vec![InputValue::Complemented],
                    InputValue::Uncomplemented,
                ))
                .build()
                .unwrap(),
        )
        .add_logic_gate(
            LogicGateBuilder::new()
                .add_input("b")
                .set_output("o_b")
                .add_truth_table_row((
                    vec![InputValue::Complemented],
                    InputValue::Uncomplemented,
                ))
                .build()
                .unwrap(),
        )
        .build();

    let res = not2.stim(
        SignalsBuilder::new()
            .add_signal("a", SignalState::Low)
            .add_signal("b", SignalState::High)
            .build(),
    );

    assert_eq!(res.get("o_a"), SignalState::High);
    assert_eq!(res.get("o_b"), SignalState::Low);
}
