use zki_sieve::gates::CaseInvoke::AbstractGateCall;
use zki_sieve::gates::Gate::{Add, AddConstant, AssertZero, Call, Constant, Delete, Mul, New, PrivateInput, PublicInput};
use zki_sieve::gates::WireListElement::{Wire, WireRange};
use zki_sieve::gates::Gate;
use zki_sieve::gates::{expand_wirelist, replace_output_wires, WireListError};

#[test]
fn test_replace_output_wires() {
    let mut gates = vec![
        New(0, 4, 4),
        PublicInput(0, 4),
        PrivateInput(0, 5),
        Constant(0, 6, vec![15]),
        PublicInput(1, 6),
        Add(0, 7, 4, 5),
        Delete(0, 4, 4),
        Mul(0, 8, 6, 7),
        Call(
            "custom".to_string(),
            vec![WireRange(0, 9, 12)],
            vec![WireRange(0, 7, 8)],
        ),
        AssertZero(0, 12),
    ];
    let output_wires = vec![WireRange(0, 4, 6), Wire(0, 12)];
    replace_output_wires(&mut gates, &output_wires).unwrap();
    let correct_gates = vec![
        New(0, 4, 4),
        PublicInput(0, 4),
        PrivateInput(0, 1),
        Constant(0, 2, vec![15]),
        PublicInput(1, 6),
        Add(0, 7, 4, 1),
        Delete(0, 4, 4),
        Mul(0, 8, 2, 7),
        Call(
            "custom".to_string(),
            vec![WireRange(0, 9, 12)],
            vec![WireRange(0, 7, 8)],
        ),
        AssertZero(0, 12),
        Gate::Copy(0, 0, 4),
        Gate::Copy(0, 3, 12),
    ];
    assert_eq!(gates, correct_gates);
}

#[test]
fn test_replace_output_wires_with_forbidden_delete() {
    let mut gates = vec![
        Add(0, 2, 4, 6),
        Mul(0, 7, 4, 6),
        Add(0, 8, 3, 5),
        Add(0, 9, 7, 8),
        Mul(0, 10, 3, 5),
        AddConstant(0, 11, 10, vec![1]),
        Delete(0, 7, 9),
    ];
    let output_wires = vec![Wire(0, 8), Wire(0, 4)];
    let test = replace_output_wires(&mut gates, &output_wires);
    assert!(test.is_err());

    let mut gates = vec![
        Add(0, 2, 4, 6),
        Mul(0, 7, 4, 6),
        Delete(0, 4, 4),
        Add(0, 8, 3, 5),
        Add(0, 9, 7, 8),
        Mul(0, 10, 3, 5),
        AddConstant(0, 11, 10, vec![1]),
    ];
    let output_wires = vec![Wire(0, 8), Wire(0, 4)];
    let test = replace_output_wires(&mut gates, &output_wires);
    assert!(test.is_err());
}

#[test]
fn refused_output_leaves_body_unchanged() {
    let mut gates = vec![Add(0, 2, 4, 6), Delete(0, 2, 2)];
    let r = replace_output_wires(&mut gates, &vec![Wire(0, 2)]);
    assert_eq!(r, Err(WireListError::DeletedOutput(0, 2)));
    assert_eq!(gates, vec![Add(0, 2, 4, 6), Delete(0, 2, 2)]);
}

#[test]
fn output_inside_a_new_range_gets_a_copy() {
    let mut gates = vec![New(0, 0, 9), Add(0, 10, 3, 4)];
    replace_output_wires(&mut gates, &vec![Wire(0, 5), Wire(0, 10)]).unwrap();
    assert_eq!(gates, vec![New(0, 0, 9), Add(0, 1, 3, 4), Gate::Copy(0, 0, 5)]);
}

#[test]
fn canonical_outputs_are_left_alone() {
    let body = || vec![PrivateInput(0, 2), Mul(0, 0, 2, 2), Add(0, 1, 0, 2)];
    let mut gates = body();
    replace_output_wires(&mut gates, &vec![WireRange(0, 0, 1)]).unwrap();
    assert_eq!(gates, body());
}

#[test]
fn expand_wirelist_expands_ranges_and_refuses_empty_ones() {
    assert_eq!(
        expand_wirelist(&vec![Wire(1, 7), WireRange(0, 3, 5)]).unwrap(),
        vec![(1, 7), (0, 3), (0, 4), (0, 5)]
    );
    assert_eq!(
        expand_wirelist(&vec![WireRange(0, 5, 3)]),
        Err(WireListError::EmptyRange(0, 5, 3))
    );
}

#[test]
fn output_wire_of_simple_gates() {
    assert_eq!(Add(0, 7, 1, 2).output_wire_id(), Some(7));
    assert_eq!(PublicInput(1, 3).output_wire_id(), Some(3));
    assert_eq!(AssertZero(0, 7).output_wire_id(), None);
    assert_eq!(Delete(0, 1, 2).output_wire_id(), None);
}

#[test]
fn switch_condition_follows_its_renamed_output() {
    let switch = |cond: u64| {
        Gate::Switch(
            0,
            cond,
            vec![Wire(0, 9)],
            vec![vec![0]],
            vec![AbstractGateCall("f".to_string(), vec![])],
        )
    };
    let mut gates = vec![Constant(0, 5, vec![1]), switch(5)];
    replace_output_wires(&mut gates, &vec![Wire(0, 5)]).unwrap();
    assert_eq!(gates, vec![Constant(0, 0, vec![1]), switch(0)]);
}

#[test]
fn output_read_by_a_switch_branch_gets_a_copy() {
    let switch = || {
        Gate::Switch(
            0,
            7,
            vec![Wire(0, 9)],
            vec![vec![0]],
            vec![AbstractGateCall("f".to_string(), vec![Wire(0, 5)])],
        )
    };
    let mut gates = vec![Constant(0, 5, vec![1]), switch()];
    replace_output_wires(&mut gates, &vec![Wire(0, 5)]).unwrap();
    assert_eq!(gates, vec![Constant(0, 5, vec![1]), switch(), Gate::Copy(0, 0, 5)]);
}
