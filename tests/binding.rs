use leo_types::declaration::{
    find_assignment, FunctionInput, InputAssignment, InputsFile, Section, Visibility,
};
use leo_types::error::InputParserError;
use leo_types::inputs::{bind_section, Inputs};
use leo_types::public::flatten_public;
use leo_types::value::InputValue;

fn formal(id: &str, ty: &str, private: bool) -> FunctionInput {
    FunctionInput {
        identifier: id.to_string(),
        declared_type: ty.to_string(),
        private,
    }
}

fn assign(id: &str, vis: Visibility, ty: &str, n: u128) -> InputAssignment {
    InputAssignment {
        identifier: id.to_string(),
        visibility: vis,
        declared_type: ty.to_string(),
        value: Ok(InputValue::Integer(n)),
    }
}

fn section(name: &str, assignments: Vec<InputAssignment>) -> Section {
    Section {
        name: name.to_string(),
        assignments,
    }
}

fn file(sections: Vec<Section>) -> InputsFile {
    InputsFile { sections }
}

#[test]
fn end_to_end_public_and_private() {
    let expected = vec![formal("a", "u32", false), formal("b", "u32", true)];
    let f = file(vec![section(
        "main",
        vec![
            assign("a", Visibility::Public, "u32", 5),
            assign("b", Visibility::Unspecified, "u32", 7),
        ],
    )]);
    let inputs = Inputs::from_inputs_file(f, expected).unwrap();
    assert_eq!(
        inputs.get_inputs(),
        vec![Some(InputValue::Integer(5)), Some(InputValue::Integer(7))]
    );
    let public = inputs.get_public();
    assert_eq!(public, vec![InputValue::Integer(5)]);
    let expansions: Vec<Result<Vec<u128>, InputParserError>> = public
        .iter()
        .map(|v| match v {
            InputValue::Integer(n) => Ok(vec![*n]),
            _ => Err(InputParserError::Conversion("not an integer".to_string())),
        })
        .collect();
    assert_eq!(flatten_public(expansions), Ok(vec![5u128]));
}

#[test]
fn every_input_bound_in_order() {
    let expected = vec![
        formal("x", "u8", true),
        formal("y", "field", true),
        formal("z", "bool", false),
    ];
    let f = file(vec![section(
        "main",
        vec![
            assign("z", Visibility::Public, "bool", 3),
            assign("y", Visibility::Private, "field", 2),
            assign("x", Visibility::Unspecified, "u8", 1),
        ],
    )]);
    let inputs = Inputs::from_inputs_file(f, expected).unwrap();
    assert_eq!(
        inputs.get_inputs(),
        vec![
            Some(InputValue::Integer(1)),
            Some(InputValue::Integer(2)),
            Some(InputValue::Integer(3))
        ]
    );
    assert_eq!(inputs.get_public(), vec![InputValue::Integer(3)]);
}

#[test]
fn missing_input_is_named() {
    let expected = vec![formal("a", "u32", true), formal("b", "u32", true), formal("c", "u32", true)];
    let f = file(vec![section(
        "main",
        vec![assign("a", Visibility::Unspecified, "u32", 1), assign("c", Visibility::Unspecified, "u32", 3)],
    )]);
    assert_eq!(
        Inputs::from_inputs_file(f, expected).err(),
        Some(InputParserError::InputNotFound(formal("b", "u32", true)))
    );
}

#[test]
fn visibility_mismatch_is_not_a_match() {
    let expected = vec![formal("a", "u32", false)];
    let f = file(vec![section("main", vec![assign("a", Visibility::Private, "u32", 5)])]);
    assert_eq!(
        Inputs::from_inputs_file(f, expected).err(),
        Some(InputParserError::InputNotFound(formal("a", "u32", false)))
    );
}

#[test]
fn unspecified_visibility_is_not_public() {
    let expected = vec![formal("a", "u32", false)];
    let f = file(vec![section("main", vec![assign("a", Visibility::Unspecified, "u32", 5)])]);
    assert!(matches!(
        Inputs::from_inputs_file(f, expected),
        Err(InputParserError::InputNotFound(_))
    ));
}

#[test]
fn type_mismatch_is_not_a_match() {
    let expected = vec![formal("a", "u32", true)];
    let f = file(vec![section("main", vec![assign("a", Visibility::Private, "u64", 5)])]);
    assert_eq!(
        Inputs::from_inputs_file(f, expected).err(),
        Some(InputParserError::InputNotFound(formal("a", "u32", true)))
    );
}

#[test]
fn first_duplicate_wins() {
    let expected = vec![formal("a", "u32", true)];
    let f = file(vec![section(
        "main",
        vec![
            assign("a", Visibility::Private, "u64", 9),
            assign("a", Visibility::Private, "u32", 1),
            assign("a", Visibility::Unspecified, "u32", 2),
        ],
    )]);
    let inputs = Inputs::from_inputs_file(f, expected).unwrap();
    assert_eq!(inputs.get_inputs(), vec![Some(InputValue::Integer(1))]);
}

#[test]
fn find_assignment_gives_first_position() {
    let asg = vec![
        assign("b", Visibility::Private, "u32", 0),
        assign("a", Visibility::Public, "u32", 1),
        assign("a", Visibility::Public, "u32", 2),
    ];
    assert_eq!(find_assignment(&asg, &formal("a", "u32", false)), Some(1));
    assert_eq!(find_assignment(&asg, &formal("a", "u32", true)), None);
}

#[test]
fn evaluation_failure_propagates() {
    let expected = vec![formal("a", "u32", true)];
    let f = file(vec![section(
        "main",
        vec![InputAssignment {
            identifier: "a".to_string(),
            visibility: Visibility::Unspecified,
            declared_type: "u32".to_string(),
            value: Err(InputParserError::ExpressionEvaluation("bad".to_string())),
        }],
    )]);
    assert_eq!(
        Inputs::from_inputs_file(f, expected).err(),
        Some(InputParserError::ExpressionEvaluation("bad".to_string()))
    );
}

#[test]
fn other_sections_are_ignored() {
    let expected = vec![formal("a", "u32", true)];
    let f = file(vec![
        section("registers", vec![assign("a", Visibility::Private, "u32", 8)]),
        section("main", vec![assign("a", Visibility::Private, "u32", 4)]),
    ]);
    let inputs = Inputs::from_inputs_file(f, expected).unwrap();
    assert_eq!(inputs.get_inputs(), vec![Some(InputValue::Integer(4))]);
}

#[test]
fn no_main_section_binds_nothing() {
    let expected = vec![formal("a", "u32", true)];
    let f = file(vec![section("other", vec![])]);
    let inputs = Inputs::from_inputs_file(f, expected).unwrap();
    assert_eq!(inputs.get_inputs(), vec![]);
    assert_eq!(inputs.get_public(), vec![]);
}

#[test]
fn two_main_sections_append() {
    let expected = vec![formal("a", "u32", false)];
    let f = file(vec![
        section("main", vec![assign("a", Visibility::Public, "u32", 1)]),
        section("main", vec![assign("a", Visibility::Public, "u32", 2)]),
    ]);
    let inputs = Inputs::from_inputs_file(f, expected).unwrap();
    assert_eq!(
        inputs.get_inputs(),
        vec![Some(InputValue::Integer(1)), Some(InputValue::Integer(2))]
    );
    assert_eq!(inputs.get_public(), vec![InputValue::Integer(1), InputValue::Integer(2)]);
}

#[test]
fn bind_section_keeps_structured_values() {
    let expected = vec![formal("p", "[u8; 2]", false)];
    let value = InputValue::Array(vec![InputValue::Integer(1), InputValue::Boolean(true)]);
    let asg = vec![InputAssignment {
        identifier: "p".to_string(),
        visibility: Visibility::Public,
        declared_type: "[u8; 2]".to_string(),
        value: Ok(InputValue::Array(vec![InputValue::Integer(1), InputValue::Boolean(true)])),
    }];
    let (ins, pubs) = bind_section(&expected, &asg).unwrap();
    assert_eq!(ins, vec![Some(value)]);
    assert_eq!(
        pubs,
        vec![InputValue::Array(vec![InputValue::Integer(1), InputValue::Boolean(true)])]
    );
}

#[test]
fn empty_expected_binds_empty() {
    let f = file(vec![section("main", vec![assign("a", Visibility::Public, "u32", 1)])]);
    let inputs = Inputs::from_inputs_file(f, vec![]).unwrap();
    assert_eq!(inputs.get_inputs(), vec![]);
    assert_eq!(inputs.get_public(), vec![]);
}

/// The integer leaves of a value, in order.
fn leaves(v: &InputValue, out: &mut Vec<u128>) {
    match v {
        InputValue::Integer(n) => out.push(*n),
        InputValue::Tuple(items) | InputValue::Array(items) => {
            for item in items {
                leaves(item, out);
            }
        }
        _ => {}
    }
}

#[test]
fn public_tuple_flattens_in_place() {
    let expected = vec![formal("p", "(u8, u8)", false), formal("q", "u8", false)];
    let f = file(vec![section(
        "main",
        vec![
            InputAssignment {
                identifier: "p".to_string(),
                visibility: Visibility::Public,
                declared_type: "(u8, u8)".to_string(),
                value: Ok(InputValue::Tuple(vec![InputValue::Integer(1), InputValue::Integer(2)])),
            },
            assign("q", Visibility::Public, "u8", 3),
        ],
    )]);
    let inputs = Inputs::from_inputs_file(f, expected).unwrap();
    let public = inputs.get_public();
    assert_eq!(
        public,
        vec![
            InputValue::Tuple(vec![InputValue::Integer(1), InputValue::Integer(2)]),
            InputValue::Integer(3)
        ]
    );
    let expansions: Vec<Result<Vec<u128>, InputParserError>> = public
        .iter()
        .map(|v| {
            let mut out = vec![];
            leaves(v, &mut out);
            Ok(out)
        })
        .collect();
    assert_eq!(flatten_public(expansions), Ok(vec![1u128, 2, 3]));
}

#[test]
fn value_clone_is_deep() {
    let v = InputValue::Array(vec![
        InputValue::Tuple(vec![InputValue::Field("7".to_string()), InputValue::Boolean(false)]),
        InputValue::Group("(0, 1)".to_string()),
    ]);
    assert_eq!(v.clone(), v);
    assert_eq!(v.duplicate(), v);
}
