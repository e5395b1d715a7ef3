use zki_sieve::builder::BuildComplexGate::{Call, Convert};
use zki_sieve::builder::BuildGate::{Add, AssertZero, AddConstant, Constant, Delete, Mul, MulConstant, New, PrivateInput, PublicInput};
use zki_sieve::builder::{
    create_plugin_function, new_example_builder, BuildError, FunctionWithInfos, GateBuilder,
    MemorySink, WireRange,
};
use zki_sieve::gates::Gate;
use zki_sieve::gates::WireListElement;
use zki_sieve::structs::{Count, Function, FunctionBody, PluginBody};
use zki_sieve::validator::Validator;
use zki_sieve::builder::{counts_fit_check, GateBuilderT};
use zki_sieve::TypeId;

fn build_through_trait<B: GateBuilderT>(b: &mut B) -> u64 {
    let x = GateBuilderT::create_gate(b, Constant(0, vec![1])).unwrap();
    GateBuilderT::create_gate(b, AssertZero(0, x)).unwrap();
    x
}

/// Validates everything a builder wrote, as the prover.
fn violations_of(sink: MemorySink) -> Vec<String> {
    let mut v = Validator::new_as_prover();
    for m in &sink.public_inputs {
        v.ingest_instance(m);
    }
    for m in &sink.private_inputs {
        v.ingest_witness(m);
    }
    for m in &sink.relations {
        v.ingest_relation(m);
    }
    v.get_violations()
}

#[test]
fn test_builder_with_function() {
    let mut b = GateBuilder::new(MemorySink::default(), &[vec![101]]);

    let custom_sub = {
        let mut fb = b.new_function_builder(
            "custom_sub".to_string(),
            vec![Count::new(0, 2)],
            vec![Count::new(0, 4)],
        );

        let input_wires = fb.input_wires();
        let neg_input2_wire = fb.create_gate(MulConstant(0, input_wires[2].1, vec![100]));
        let neg_input3_wire = fb.create_gate(MulConstant(0, input_wires[3].1, vec![100]));
        let output0_wire = fb.create_gate(Add(0, input_wires[0].1, neg_input2_wire));
        let output1_wire = fb.create_gate(Add(0, input_wires[1].1, neg_input3_wire));
        let custom_sub = fb
            .finish(vec![WireRange::new(output0_wire, output1_wire)])
            .unwrap();
        custom_sub
    };

    b.push_function(custom_sub).unwrap();

    // Try to push two functions with the same name
    // It should return an error
    let custom_function = FunctionWithInfos {
        function: Function::new(
            "custom_sub".to_string(),
            vec![],
            vec![],
            FunctionBody::Gates(vec![]),
        ),
        public_count: vec![],
        private_count: vec![],
        used_conversions: vec![],
    };
    assert!(b.push_function(custom_function).is_err());

    b.create_gate(New(0, 0, 3)).unwrap();
    let id_0 = b.create_gate(Constant(0, vec![40])).unwrap();
    let _id_1 = b.create_gate(Constant(0, vec![30])).unwrap();
    let _id_2 = b.create_gate(Constant(0, vec![10])).unwrap();
    let id_3 = b.create_gate(Constant(0, vec![5])).unwrap();

    let out = b
        .create_complex_gate(
            Call("custom_sub".to_string(), vec![WireRange::new(id_0, id_3)]),
            vec![],
            vec![],
        )
        .unwrap();
    assert_eq!(out.len(), 1);
    let out = (out[0].first_id..=out[0].last_id).collect::<Vec<_>>();
    assert_eq!(out.len(), 2);

    let private_0 = b.create_gate(PrivateInput(0, Some(vec![30]))).unwrap();
    let private_1 = b.create_gate(PrivateInput(0, Some(vec![25]))).unwrap();

    let neg_private_0 = b.create_gate(MulConstant(0, private_0, vec![100])).unwrap(); // *(-1)
    let neg_private_1 = b.create_gate(MulConstant(0, private_1, vec![100])).unwrap(); // *(-1)

    let res_0 = b.create_gate(Add(0, out[0], neg_private_0)).unwrap();
    let res_1 = b.create_gate(Add(0, out[1], neg_private_1)).unwrap();

    b.create_gate(AssertZero(0, res_0)).unwrap();
    b.create_gate(AssertZero(0, res_1)).unwrap();

    // Try to call an unknown function
    // It should return an error
    assert!(b
        .create_complex_gate(
            Call(
                "unknown_function".to_string(),
                vec![WireRange::new(id_0, id_0)]
            ),
            vec![],
            vec![]
        )
        .is_err());

    let sink = b.finish();
    assert_eq!(violations_of(sink), Vec::<String>::new());
}

#[test]
fn test_builder_with_several_functions() {
    let type_id: TypeId = 0;

    let mut b = GateBuilder::new(MemorySink::default(), &[vec![101]]);

    let private_square = {
        let mut fb =
            b.new_function_builder("private_square".to_string(), vec![Count::new(0, 1)], vec![]);
        let private_wire = fb.create_gate(PrivateInput(type_id, None));
        let output_wire = fb.create_gate(Mul(type_id, private_wire, private_wire));

        fb.finish(vec![WireRange::new(output_wire, output_wire)])
            .unwrap()
    };

    b.push_function(private_square).unwrap();

    let sub_public_private_square = {
        let mut fb = b.new_function_builder(
            "sub_public_private_square".to_string(),
            vec![Count::new(0, 1)],
            vec![],
        );
        let public_wire = fb.create_gate(PublicInput(type_id, None));

        // Try to call a function with a wrong number of inputs
        // Should return an error
        let test = fb.create_complex_gate(Call(
            "private_square".to_string(),
            vec![WireRange::new(public_wire, public_wire)],
        ));
        assert!(test.is_err());

        // Try to Call a not defined function
        // Should return an error
        let test = fb.create_complex_gate(Call(
            "test".to_string(),
            vec![WireRange::new(public_wire, public_wire)],
        ));
        assert!(test.is_err());

        let private_square_wires = fb
            .create_complex_gate(Call("private_square".to_string(), vec![]))
            .unwrap();
        assert_eq!(private_square_wires.len(), 1);
        let private_square_wires = (private_square_wires[0].first_id
            ..=private_square_wires[0].last_id)
            .collect::<Vec<_>>();
        assert_eq!(private_square_wires.len(), 1);
        let neg_private_square_wire =
            fb.create_gate(MulConstant(type_id, private_square_wires[0], vec![100]));
        let output_wire = fb.create_gate(Add(type_id, public_wire, neg_private_square_wire));

        fb.finish(vec![WireRange::new(output_wire, output_wire)])
            .unwrap()
    };

    b.push_function(sub_public_private_square).unwrap();

    // Try to call a function with a wrong number of public inputs
    // Should return an error
    let test = b.create_complex_gate(
        Call("sub_public_private_square".to_string(), vec![]),
        vec![],
        vec![vec![vec![5]]],
    );
    assert!(test.is_err());

    // Try to call a function with a wrong number of private inputs
    // Should return an error
    let test = b.create_complex_gate(
        Call("sub_public_private_square".to_string(), vec![]),
        vec![vec![vec![25]]],
        vec![],
    );
    assert!(test.is_err());

    let out = b
        .create_complex_gate(
            Call("sub_public_private_square".to_string(), vec![]),
            vec![vec![vec![25]]],
            vec![vec![vec![5]]],
        )
        .unwrap();
    assert_eq!(out.len(), 1);
    let out = (out[0].first_id..=out[0].last_id).collect::<Vec<_>>();
    assert_eq!(out.len(), 1);

    b.create_gate(AssertZero(type_id, out[0])).unwrap();

    let sink = b.finish();
    assert_eq!(violations_of(sink), Vec::<String>::new());
}

#[test]
fn test_builder_with_conversion() {
    let type_id_7: TypeId = 0;
    let type_id_101: TypeId = 1;

    let mut b = GateBuilder::new(MemorySink::default(), &[vec![7], vec![101]]);

    let id_0 = b
        .create_gate(PrivateInput(type_id_7, Some(vec![1])))
        .unwrap();
    let id_1 = b
        .create_gate(PrivateInput(type_id_7, Some(vec![3])))
        .unwrap();
    let out = b
        .create_complex_gate(
            Convert(type_id_101, 3, type_id_7, id_0, id_1),
            vec![],
            vec![],
        )
        .unwrap();
    assert_eq!(out.len(), 1);
    let out = (out[0].first_id..=out[0].last_id).collect::<Vec<_>>();
    assert_eq!(out.len(), 3);
    b.create_gate(AssertZero(type_id_101, out[0])).unwrap();
    b.create_gate(AssertZero(type_id_101, out[1])).unwrap();
    let id_2 = b
        .create_gate(AddConstant(type_id_101, out[2], vec![91]))
        .unwrap();
    b.create_gate(AssertZero(type_id_101, id_2)).unwrap();

    let sink = b.finish();
    assert_eq!(sink.relations[0].conversions.len(), 1);
    assert_eq!(violations_of(sink), Vec::<String>::new());
}

#[test]
fn test_builder_with_plugin() {
    let type_id: TypeId = 0;

    let mut b = GateBuilder::new(MemorySink::default(), &[vec![101]]);

    let vector_len: u64 = 2;
    let vector_add_plugin = create_plugin_function(
        "vector_add_2".to_string(),
        vec![Count::new(type_id, vector_len)],
        vec![
            Count::new(type_id, vector_len),
            Count::new(type_id, vector_len),
        ],
        PluginBody {
            name: "vector".to_string(),
            operation: "add".to_string(),
            params: vec![type_id.to_string(), vector_len.to_string()],
            public_count: vec![],
            private_count: vec![],
        },
    )
    .unwrap();

    b.push_plugin(vector_add_plugin).unwrap();

    let private_0 = b.create_gate(PrivateInput(type_id, Some(vec![1]))).unwrap();
    let private_1 = b.create_gate(PrivateInput(type_id, Some(vec![2]))).unwrap();
    let public_0 = b.create_gate(PrivateInput(type_id, Some(vec![3]))).unwrap();
    let public_1 = b.create_gate(PrivateInput(type_id, Some(vec![4]))).unwrap();

    let out = b
        .create_complex_gate(
            Call(
                "vector_add_2".to_string(),
                vec![
                    WireRange::new(private_0, private_1),
                    WireRange::new(public_0, public_1),
                ],
            ),
            vec![],
            vec![],
        )
        .unwrap();
    assert_eq!(out.len(), 1);
    let out = (out[0].first_id..=out[0].last_id).collect::<Vec<_>>();
    assert_eq!(out.len() as u64, vector_len);

    let out_0 = b
        .create_gate(AddConstant(type_id, out[0], vec![97]))
        .unwrap();
    let out_1 = b
        .create_gate(AddConstant(type_id, out[1], vec![95]))
        .unwrap();

    b.create_gate(AssertZero(type_id, out_0)).unwrap();
    b.create_gate(AssertZero(type_id, out_1)).unwrap();

    let sink = b.finish();
    assert_eq!(sink.relations[0].plugins, vec!["vector".to_string()]);
    assert_eq!(violations_of(sink), Vec::<String>::new());
}

#[test]
fn function_outputs_are_renumbered_to_canonical_ids() {
    let b = new_example_builder();
    let mut fb = b.new_function_builder("f".to_string(), vec![Count::new(0, 1)], vec![Count::new(0, 2)]);
    assert_eq!(fb.input_wires(), vec![(0, 1), (0, 2)]);
    let w = fb.create_gate(Add(0, 1, 2));
    assert_eq!(w, 3);
    let f = fb.finish(vec![WireRange::new(w, w)]).unwrap();
    assert_eq!(f.function.body, FunctionBody::Gates(vec![Gate::Add(0, 0, 1, 2)]));
}

#[test]
fn function_output_from_a_call_gets_a_copy() {
    let mut b = new_example_builder();
    let g = {
        let mut fb = b.new_function_builder("g".to_string(), vec![Count::new(0, 1)], vec![]);
        let w = fb.create_gate(Constant(0, vec![1]));
        fb.finish(vec![WireRange::new(w, w)]).unwrap()
    };
    b.push_function(g).unwrap();
    let mut fb = b.new_function_builder("h".to_string(), vec![Count::new(0, 1)], vec![]);
    let r = fb.create_complex_gate(Call("g".to_string(), vec![])).unwrap();
    assert_eq!(r, vec![WireRange::new(1, 1)]);
    let f = fb.finish(vec![WireRange::new(1, 1)]).unwrap();
    assert_eq!(
        f.function.body,
        FunctionBody::Gates(vec![
            Gate::Call(
                "g".to_string(),
                vec![WireListElement::WireRange(0, 1, 1)],
                vec![]
            ),
            Gate::Copy(0, 0, 1),
        ])
    );
}

#[test]
fn deleting_a_function_output_is_refused() {
    let b = new_example_builder();
    let mut fb = b.new_function_builder("f".to_string(), vec![Count::new(0, 1)], vec![]);
    let w = fb.create_gate(Constant(0, vec![1]));
    fb.create_gate(Delete(0, w, w));
    assert_eq!(
        fb.finish(vec![WireRange::new(w, w)]).err(),
        Some(BuildError::DeletedOutput(0, w))
    );
    assert_eq!(
        fb.finish(vec![]).err(),
        Some(BuildError::OutputCountMismatch)
    );
}

#[test]
fn builder_errors() {
    let mut b = new_example_builder();
    assert_eq!(b.create_gate(Constant(1, vec![1])), Err(BuildError::UndefinedType(1)));
    assert_eq!(
        b.create_complex_gate(Convert(0, 1, 0, 5, 4), vec![], vec![]),
        Err(BuildError::EmptyRange)
    );
    assert_eq!(
        b.create_complex_gate(Convert(0, 1, 0, 4, 5), vec![vec![vec![1]]], vec![]),
        Err(BuildError::ConvertWithInputs)
    );
    let not_plugin = Function::new("p".to_string(), vec![], vec![], FunctionBody::Gates(vec![]));
    assert_eq!(b.push_plugin(not_plugin), Err(BuildError::NotAPlugin));
    let body = |name: &str, op: &str| PluginBody {
        name: name.to_string(),
        operation: op.to_string(),
        params: vec![],
        public_count: vec![],
        private_count: vec![],
    };
    assert_eq!(
        create_plugin_function(String::new(), vec![], vec![], body("a", "b")).err(),
        Some(BuildError::EmptyFunctionName)
    );
    assert_eq!(
        create_plugin_function("f".to_string(), vec![], vec![], body("", "b")).err(),
        Some(BuildError::EmptyPluginName)
    );
    assert_eq!(
        create_plugin_function("f".to_string(), vec![], vec![], body("a", "")).err(),
        Some(BuildError::EmptyPluginOperation)
    );
}

#[test]
fn allocation_is_per_type_and_monotonic() {
    let mut b = GateBuilder::new(MemorySink::default(), &[vec![7], vec![11]]);
    assert_eq!(b.create_gate(Constant(0, vec![1])), Ok(0));
    assert_eq!(b.create_gate(Constant(1, vec![1])), Ok(0));
    assert_eq!(b.create_gate(Constant(0, vec![1])), Ok(1));
    assert_eq!(b.create_gate(AssertZero(0, 1)), Ok(zki_sieve::builder::NO_OUTPUT));
    let r = b
        .create_complex_gate(Convert(1, 4, 0, 0, 1), vec![], vec![])
        .unwrap();
    assert_eq!(r, vec![WireRange::new(1, 4)]);
}

#[test]
fn builder_trait_builds_gates() {
    let mut b = new_example_builder();
    assert_eq!(build_through_trait(&mut b), 0);
}

#[test]
fn counts_and_next_ids_can_be_checked_first() {
    assert!(counts_fit_check(&vec![Count::new(0, 2)], &vec![Count::new(0, 4)]));
    assert!(!counts_fit_check(&vec![Count::new(0, u64::MAX)], &vec![Count::new(0, 1)]));
    let b = new_example_builder();
    let fb = b.new_function_builder("f".to_string(), vec![Count::new(0, 2)], vec![Count::new(0, 4)]);
    assert_eq!(fb.next_wire_id(0), 6);
    assert_eq!(fb.next_wire_id(1), 0);
}

#[test]
fn conversions_and_plugins_are_recorded_once() {
    let mut b = GateBuilder::new(MemorySink::default(), &[vec![7], vec![101]]);
    let a = b.create_gate(Constant(0, vec![1])).unwrap();
    b.create_complex_gate(Convert(1, 1, 0, a, a), vec![], vec![]).unwrap();
    b.create_complex_gate(Convert(1, 1, 0, a, a), vec![], vec![]).unwrap();
    // Refused for its input values, yet declared (once).
    assert_eq!(
        b.create_complex_gate(Convert(1, 2, 0, a, a), vec![vec![]], vec![]),
        Err(BuildError::ConvertWithInputs)
    );
    let plugin = |name: &str| {
        create_plugin_function(
            name.to_string(),
            vec![],
            vec![],
            PluginBody {
                name: "vector".to_string(),
                operation: "add".to_string(),
                params: vec![],
                public_count: vec![],
                private_count: vec![],
            },
        )
        .unwrap()
    };
    b.push_plugin(plugin("p1")).unwrap();
    b.push_plugin(plugin("p2")).unwrap();
    assert_eq!(b.push_plugin(plugin("p1")), Err(BuildError::DuplicateFunction));
    let sink = b.finish();
    assert_eq!(sink.relations.len(), 1);
    assert_eq!(sink.relations[0].conversions.len(), 2);
    assert_eq!(sink.relations[0].plugins, vec!["vector".to_string()]);
    assert_eq!(sink.relations[0].functions.len(), 2);
}

#[test]
fn input_values_are_queued_per_type() {
    let mut b = GateBuilder::new(MemorySink::default(), &[vec![7], vec![101]]);
    b.push_public_input_value(1, vec![5]).unwrap();
    b.create_gate(PublicInput(0, Some(vec![3]))).unwrap();
    assert_eq!(b.push_public_input_value(2, vec![5]), Err(BuildError::UndefinedType(2)));
    let sink = b.finish();
    assert_eq!(sink.public_inputs[0].inputs[0].values, vec![vec![3]]);
    assert_eq!(sink.public_inputs[0].inputs[1].values, vec![vec![5]]);
}
