use zki_sieve::examples::{example_private_inputs, example_public_inputs, example_relation};
use zki_sieve::gates::Gate;
use zki_sieve::gates::WireListElement::Wire;
use zki_sieve::structs::{Count, Function, FunctionBody, Header, Inputs, PublicInputs, Relation};
use zki_sieve::validator::{Message, Validator};

#[test]
fn test_validator() {
    let instance = example_public_inputs();
    let witness = example_private_inputs();
    let relation = example_relation();

    let mut validator = Validator::new_as_prover();
    validator.ingest_instance(&instance);
    validator.ingest_witness(&witness);
    validator.ingest_relation(&relation);

    let violations = validator.get_violations();
    assert_eq!(violations, Vec::<String>::new());
}

#[test]
fn test_validator_violations() {
    let mut instance = example_public_inputs();
    let mut witness = example_private_inputs();
    let mut relation = example_relation();

    // Create a violation by using a value too big for the field.
    instance.inputs[0].values[0] = instance.header.types[0].clone();
    // Create a violation by omitting a witness value.
    witness.inputs[0].values.pop().unwrap();
    // Create a violation by using different headers.
    relation.header.types[0] = vec![10];

    let mut validator = Validator::new_as_prover();
    validator.ingest_instance(&instance);
    validator.ingest_witness(&witness);
    validator.ingest_relation(&relation);

    let violations = validator.get_violations();
    assert_eq!(
        violations,
        vec![
            "The instance value [101, 0, 0, 0] cannot be represented in the field specified in Header (101 >= 101).",
            "The field_characteristic field is not consistent across headers.",
            "No value available for the Witness wire 2",
        ]
    );
}

#[test]
fn test_validator_free_violations() {
    let instance = example_public_inputs();
    let witness = example_private_inputs();
    let mut relation = example_relation();

    relation.gates.push(Gate::Delete(0, 1, 2));
    relation.gates.push(Gate::Delete(0, 4, 4));

    let mut validator = Validator::new_as_prover();
    validator.ingest_instance(&instance);
    validator.ingest_witness(&witness);
    validator.ingest_relation(&relation);

    let violations = validator.get_violations();
    assert_eq!(
        violations,
        vec![
            "The wire 1 is used but was not assigned a value, or has been freed already.",
            "The wire 2 is used but was not assigned a value, or has been freed already.",
            "The wire 4 is used but was not assigned a value, or has been freed already.",
        ]
    );
}

fn header(types: Vec<Vec<u8>>, profile: &str, version: &str) -> Header {
    Header {
        version: version.to_string(),
        profile: profile.to_string(),
        types,
        field_degree: 1,
    }
}

fn relation(h: Header, gates: Vec<Gate>) -> Relation {
    Relation {
        header: h,
        plugins: vec![],
        conversions: vec![],
        functions: vec![],
        gates,
    }
}

fn run_prover(h: Header, public: Vec<Vec<u8>>, gates: Vec<Gate>) -> Vec<String> {
    let mut v = Validator::new_as_prover();
    v.ingest_message(&Message::Instance(PublicInputs {
        header: h.clone(),
        inputs: vec![Inputs { values: public }],
    }));
    v.ingest_message(&Message::Relation(relation(h, gates)));
    v.get_violations()
}

#[test]
fn redefining_a_live_wire_is_one_ssa_violation() {
    let h = header(vec![vec![101]], "arithmetic", "2.0.0");
    let violations = run_prover(
        h,
        vec![],
        vec![
            Gate::Constant(0, 3, vec![1]),
            Gate::Constant(0, 3, vec![2]),
            Gate::Delete(0, 3, 3),
        ],
    );
    assert_eq!(
        violations,
        vec!["The wire 3 has already been initialized before. This violates the SSA property."]
    );
}

#[test]
fn freed_wire_can_be_declared_again() {
    let h = header(vec![vec![101]], "arithmetic", "2.0.0");
    let violations = run_prover(
        h,
        vec![],
        vec![
            Gate::Constant(0, 3, vec![1]),
            Gate::Delete(0, 3, 3),
            Gate::Constant(0, 3, vec![2]),
            Gate::Delete(0, 3, 3),
        ],
    );
    assert_eq!(violations, Vec::<String>::new());
}

#[test]
fn same_id_under_two_types_is_two_wires() {
    let h = header(vec![vec![101], vec![7]], "arithmetic", "2.0.0");
    let violations = run_prover(
        h,
        vec![],
        vec![
            Gate::Constant(0, 3, vec![1]),
            Gate::Constant(1, 3, vec![2]),
            Gate::Add(1, 4, 3, 3),
        ],
    );
    assert_eq!(violations, Vec::<String>::new());
}

#[test]
fn header_checks_report_each_problem() {
    let h = Header {
        version: "2.0".to_string(),
        profile: "boolean".to_string(),
        types: vec![vec![1]],
        field_degree: 2,
    };
    let violations = run_prover(h, vec![], vec![]);
    assert_eq!(
        violations,
        vec![
            "The field_characteristic should be > 1",
            "field_degree must be = 1",
            "With profile 'boolean', the field characteristic can only be 2.",
            "The profile version should match the following format <major>.<minor>.<patch>.",
        ]
    );
}

#[test]
fn unknown_profile_and_gate_profile_mismatch() {
    let h = header(vec![vec![2]], "circuit", "1.2.3");
    let violations = run_prover(
        h,
        vec![],
        vec![Gate::Constant(0, 0, vec![1]), Gate::Mul(0, 1, 0, 0)],
    );
    assert_eq!(
        violations,
        vec![
            "The profile name should match either 'arithmetic' or 'boolean'.",
            "Arithmetic gate found (Mul), while boolean circuit.",
        ]
    );
    let h = header(vec![vec![2]], "arithmetic", "1.2.3");
    let violations = run_prover(
        h,
        vec![],
        vec![Gate::Constant(0, 0, vec![1]), Gate::Not(0, 1, 0)],
    );
    assert_eq!(
        violations,
        vec!["Boolean gate found (Not), while arithmetic circuit."]
    );
}

#[test]
fn input_queues_and_constants() {
    let h = header(vec![vec![101]], "arithmetic", "2.0.0");
    let violations = run_prover(
        h,
        vec![vec![5], vec![6], vec![]],
        vec![
            Gate::PublicInput(0, 0),
            Gate::AddConstant(0, 1, 0, vec![200]),
            Gate::MulConstant(0, 2, 9, vec![1]),
        ],
    );
    assert_eq!(
        violations,
        vec![
            "The instance value [] is empty.",
            "The constant of AddConstant 1 cannot be represented in the field specified in Header (200 >= 101).",
            "The wire 9 is used but was not assigned a value, or has been freed already.",
            "Too many Instance values (2 not consumed)",
        ]
    );
}

#[test]
fn verifier_reads_undefined_wires_silently_but_refuses_their_freeing() {
    let h = header(vec![vec![101]], "arithmetic", "2.0.0");
    let mut v = Validator::new_as_verifier();
    v.ingest_witness(&zki_sieve::structs::PrivateInputs {
        header: h.clone(),
        inputs: vec![Inputs { values: vec![vec![1]] }],
    });
    v.ingest_relation(&relation(
        h,
        vec![
            Gate::Delete(0, 1, 2),
            Gate::PrivateInput(0, 5),
            Gate::Call("f".to_string(), vec![Wire(0, 6)], vec![Wire(0, 7)]),
        ],
    ));
    assert_eq!(v.temporary_wire_start(), 8);
    assert_eq!(
        v.get_violations(),
        vec![
            "As verifier, got an unexpected Witness message.",
            "The wire 1 is used but was not assigned a value, or has been freed already.",
            "The wire 2 is used but was not assigned a value, or has been freed already.",
        ]
    );
}

#[test]
fn undeclared_type_is_reported() {
    let h = header(vec![vec![101]], "arithmetic", "2.0.0");
    let violations = run_prover(h, vec![], vec![Gate::Constant(3, 0, vec![1])]);
    assert_eq!(violations, vec!["The type id 3 is not declared in the header."]);
}

#[test]
fn implemented_checks_are_described() {
    assert!(Validator::implemented_checks().contains("Single Static Assignment"));
}

#[test]
fn calls_consume_what_their_signature_declares() {
    let h = header(vec![vec![101]], "arithmetic", "2.0.0");
    let mut f = Function::new("f".to_string(), vec![Count::new(0, 1)], vec![], FunctionBody::Gates(vec![]));
    f.public_count = vec![Count::new(0, 2)];
    let mut rel = relation(
        h.clone(),
        vec![
            Gate::Call("f".to_string(), vec![Wire(0, 0)], vec![]),
            Gate::Call("f".to_string(), vec![Wire(0, 1)], vec![]),
            Gate::AnonCall(vec![Wire(0, 2)], vec![], 1, 0, vec![]),
        ],
    );
    rel.functions.push(f);
    let mut v = Validator::new_as_prover();
    v.ingest_instance(&PublicInputs {
        header: h,
        inputs: vec![Inputs { values: vec![vec![1], vec![2], vec![3]] }],
    });
    v.ingest_relation(&rel);
    assert_eq!(
        v.get_violations(),
        vec![
            "Not enough Instance values for the call to f.",
            "Not enough Instance values for an anonymous call.",
        ]
    );
}
