use blif_sim::blif::parser::parse_logic_gate;
use blif_sim::blif::parser::parse_model;
use blif_sim::blif::parser::parse_name;
use blif_sim::blif::parser::parse_names;
use blif_sim::blif::parser::parse_single_output_cover;
use blif_sim::blif::InputValue;
use blif_sim::blif::LogicGate;
use blif_sim::blif::Model;

#[test]
fn test_parse_name_simple() {
    let name = parse_name("i_B", 0);

    assert_eq!(name, Ok((String::from("i_B"), 3)));
}

#[test]
fn test_parse_name_whitespace_before() {
    let name = parse_name("  i_B", 0);

    assert!(name.is_err());
}

#[test]
fn test_parse_name_whitespace_after() {
    let name = parse_name("i_B  ", 0);

    assert_eq!(name, Ok((String::from("i_B"), 5)));
}

#[test]
fn test_parse_names_one_weird_name() {
    let text = ".names $undef.tmp0";
    let names = parse_names(text, 0);

    let expected = (vec![], String::from("$undef.tmp0"));

    assert_eq!(names, Ok((expected, text.chars().count())));
}

#[test]
fn test_parse_name_invalid_no_names() {
    let names = parse_names(".names", 0);

    assert!(names.is_err());
}

#[test]
fn test_parse_names_two_elements() {
    let text = ".names i_B Y";
    let names = parse_names(text, 0);

    let expected = (vec![String::from("i_B")], String::from("Y"));

    assert_eq!(names, Ok((expected, text.chars().count())));
}

#[test]
fn test_parse_names_three_elements_weird_name() {
    let text = ".names i_B Y$tmp.1 $tmp.8";
    let names = parse_names(text, 0);

    let expected = (
        vec![String::from("i_B"), String::from("Y$tmp.1")],
        String::from("$tmp.8"),
    );

    assert_eq!(names, Ok((expected, text.chars().count())));
}

#[test]
fn test_parse_single_output_cover_one_output_1() {
    let single_output_cover = parse_single_output_cover("1", 0);

    assert_eq!(
        single_output_cover,
        Ok(((vec![], InputValue::Uncomplemented), 1))
    );
}

#[test]
fn test_parse_single_output_cover_one_output_0() {
    let single_output_cover = parse_single_output_cover("0", 0);

    assert_eq!(
        single_output_cover,
        Ok(((vec![], InputValue::Complemented), 1))
    );
}

#[test]
fn test_parse_single_output_cover_one_input_one_output_01() {
    let single_output_cover = parse_single_output_cover("0 1", 0);

    assert_eq!(
        single_output_cover,
        Ok((
            (vec![InputValue::Complemented], InputValue::Uncomplemented),
            3
        ))
    );
}

#[test]
fn test_parse_single_output_cover_one_input_one_output_11() {
    let single_output_cover = parse_single_output_cover("1 1", 0);

    assert_eq!(
        single_output_cover,
        Ok((
            (vec![InputValue::Uncomplemented], InputValue::Uncomplemented),
            3
        ))
    );
}

#[test]
fn test_parse_single_output_cover_multiple_inputs_one_output() {
    let single_output_cover = parse_single_output_cover("1-01 1", 0);

    let inputs = vec![
        InputValue::Uncomplemented,
        InputValue::NotUsed,
        InputValue::Complemented,
        InputValue::Uncomplemented,
    ];

    assert_eq!(
        single_output_cover,
        Ok(((inputs, InputValue::Uncomplemented), 6))
    );
}

#[test]
fn test_parse_logic_gate_just_names() {
    let text = ".names in1 in2 out1";
    let logic_gate = parse_logic_gate(text, 0);

    let expected = LogicGate::new(
        vec!["in1".into(), "in2".into()],
        "out1".into(),
        Vec::new(),
    );

    assert_eq!(logic_gate, Ok((expected, text.chars().count())));
}

#[test]
fn test_parse_logic_gate_empty_names() {
    let logic_gate = parse_logic_gate(".names ", 0);

    assert!(logic_gate.is_err());
}

#[test]
fn test_parse_logic_gate() {
    let text = ".names a b o\n0- 1\n1- 1\n-- 1\n01 1\n";
    let logic_gate = parse_logic_gate(text, 0);

    let expected = LogicGate::new(
        vec!["a".into(), "b".into()],
        "o".into(),
        vec![
            (
                vec![InputValue::Complemented, InputValue::NotUsed],
                InputValue::Uncomplemented,
            ),
            (
                vec![InputValue::Uncomplemented, InputValue::NotUsed],
                InputValue::Uncomplemented,
            ),
            (
                vec![InputValue::NotUsed, InputValue::NotUsed],
                InputValue::Uncomplemented,
            ),
            (
                vec![InputValue::Complemented, InputValue::Uncomplemented],
                InputValue::Uncomplemented,
            ),
        ],
    );

    assert_eq!(logic_gate, Ok((expected, text.chars().count())));
}

#[test]
fn test_parse_model_inputs_outputs() {
    let text = ".model test\n.inputs a b\n.outputs o\n.end\n";
    let model = parse_model(text, 0);

    let expected = Model::new(
        "test".into(),
        vec!["a".into(), "b".into()],
        vec!["o".into()],
        Vec::new(),
    );

    assert_eq!(model, Ok((expected, text.chars().count())));
}

#[test]
fn test_parse_model() {
    let text = ".model test\n.inputs a b\n.outputs o\n.names a b o\n11 1\n.end\n";
    let model = parse_model(text, 0);

    let expected = Model::new(
        "test".into(),
        vec!["a".into(), "b".into()],
        vec!["o".into()],
        vec![LogicGate::new(
            vec!["a".into(), "b".into()],
            "o".into(),
            vec![(
                vec![InputValue::Uncomplemented, InputValue::Uncomplemented],
                InputValue::Uncomplemented,
            )],
        )],
    );

    assert_eq!(model, Ok((expected, text.chars().count())));
}
