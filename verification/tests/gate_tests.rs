use blif_sim::blif::InputValue;
use blif_sim::blif::LogicGate;
use blif_sim::simulation::SignalState;
use blif_sim::simulation::SignalsBuilder;
use blif_sim::simulation::Simulable;

fn and_gate() -> LogicGate {
    LogicGate::new(
        vec!["a".into(), "b".into()],
        "y".into(),
        vec![(
            vec![InputValue::Uncomplemented, InputValue::Uncomplemented],
            InputValue::Uncomplemented,
        )],
    )
}

fn not_gate() -> LogicGate {
    LogicGate::new(
        vec!["a".into()],
        "y".into(),
        vec![(vec![InputValue::Complemented], InputValue::Uncomplemented)],
    )
}

#[test]
fn test_not_0() {
    let simulation = not_gate().stim(
        SignalsBuilder::new()
            .add_signal("a", SignalState::Low)
            .build(),
    );

    assert_eq!(simulation.get("y"), SignalState::High);
}

#[test]
fn test_not_1() {
    let simulation = not_gate().stim(
        SignalsBuilder::new()
            .add_signal("a", SignalState::High)
            .build(),
    );

    assert_eq!(simulation.get("y"), SignalState::Low);
}

#[test]
fn test_and_gate_00() {
    let simulation = and_gate().stim(
        SignalsBuilder::new()
            .add_signal("a", SignalState::Low)
            .add_signal("b", SignalState::Low)
            .build(),
    );
    assert_eq!(simulation.get("y"), SignalState::Low);
}

#[test]
fn test_and_gate_01() {
    let simulation = and_gate().stim(
        SignalsBuilder::new()
            .add_signal("a", SignalState::Low)
            .add_signal("b", SignalState::High)
            .build(),
    );
    assert_eq!(simulation.get("y"), SignalState::Low);
}

#[test]
fn test_and_gate_10() {
    let simulation = and_gate().stim(
        SignalsBuilder::new()
            .add_signal("a", SignalState::High)
            .add_signal("b", SignalState::Low)
            .build(),
    );
    assert_eq!(simulation.get("y"), SignalState::Low);
}

#[test]
fn test_and_gate_11() {
    let simulation = and_gate().stim(
        SignalsBuilder::new()
            .add_signal("a", SignalState::High)
            .add_signal("b", SignalState::High)
            .build(),
    );
    assert_eq!(simulation.get("y"), SignalState::High);
}
