use std::collections::HashMap;

use zki_sieve::gates::Gate;
use zki_sieve::gates::Gate::{Add, AddConstant, And, AnonCall, Constant, Mul, MulConstant, Not, PrivateInput, Xor};
use zki_sieve::gates::WireListElement::Wire;
use zki_sieve::reduction::{
    contains_feature, exp_definable, exp_definable_from, ReductionError, ADD, ADDC, AND, MUL, MULC,
    NOT, XOR,
};
use zki_sieve::structs::{Header, Relation};

fn header(c: u8) -> Header {
    Header {
        version: "2.0.0".to_string(),
        profile: "boolean".to_string(),
        types: vec![vec![c]],
        field_degree: 1,
    }
}

fn relation(c: u8, gates: Vec<Gate>) -> Relation {
    Relation {
        header: header(c),
        plugins: vec![],
        conversions: vec![],
        functions: vec![],
        gates,
    }
}

/// Evaluates gates over GF(2); returns the values of the listed wires.
fn eval_gf2(gates: &[Gate], inputs: &HashMap<u64, u8>, outs: &[u64]) -> Vec<u8> {
    let mut w: HashMap<u64, u8> = inputs.clone();
    let byte = |v: &Vec<u8>| v.first().copied().unwrap_or(0) & 1;
    for g in gates {
        match g {
            Constant(_, o, v) => {
                w.insert(*o, byte(v));
            }
            Add(_, o, l, r) | Xor(_, o, l, r) => {
                let x = w[l] ^ w[r];
                w.insert(*o, x);
            }
            Mul(_, o, l, r) | And(_, o, l, r) => {
                let x = w[l] & w[r];
                w.insert(*o, x);
            }
            AddConstant(_, o, i, v) => {
                let x = w[i] ^ byte(v);
                w.insert(*o, x);
            }
            MulConstant(_, o, i, v) => {
                let x = w[i] & byte(v);
                w.insert(*o, x);
            }
            Not(_, o, i) => {
                let x = 1 ^ w[i];
                w.insert(*o, x);
            }
            _ => {}
        }
    }
    outs.iter().map(|o| w[o]).collect()
}

fn circuit() -> Vec<Gate> {
    vec![
        PrivateInput(0, 0),
        PrivateInput(0, 1),
        Add(0, 2, 0, 1),
        Mul(0, 3, 2, 1),
        AddConstant(0, 4, 3, vec![1]),
        MulConstant(0, 5, 4, vec![1]),
        Not(0, 6, 5),
        And(0, 7, 6, 0),
        Xor(0, 8, 7, 1),
    ]
}

#[test]
fn round_trip_through_boolean_gates_keeps_the_values() {
    let (boolean, next) = exp_definable_from(relation(2, circuit()), XOR | AND | NOT, 100).unwrap();
    assert!(boolean
        .gates
        .iter()
        .all(|g| !matches!(g, Add(..) | Mul(..) | AddConstant(..) | MulConstant(..))));
    let (arith, _) =
        exp_definable_from(boolean, ADD | MUL | ADDC | MULC, next).unwrap();
    assert!(arith
        .gates
        .iter()
        .all(|g| !matches!(g, Xor(..) | And(..) | Not(..))));
    for a in 0..2u8 {
        for b in 0..2u8 {
            let inputs = HashMap::from([(0u64, a), (1u64, b)]);
            let outs = [2, 3, 4, 5, 6, 7, 8];
            assert_eq!(
                eval_gf2(&arith.gates, &inputs, &outs),
                eval_gf2(&circuit(), &inputs, &outs)
            );
        }
    }
}

#[test]
fn reducing_twice_changes_nothing() {
    let mask = ADD | MUL | ADDC | MULC;
    let (once, next) = exp_definable_from(relation(2, circuit()), mask, 50).unwrap();
    let kept = format!("{:?}", once.gates);
    let (twice, next2) = exp_definable_from(once, mask, next).unwrap();
    assert_eq!(format!("{:?}", twice.gates), kept);
    assert_eq!(next2, next);
}

#[test]
fn rewrite_rules_introduce_temporaries() {
    let (r, next) = exp_definable_from(
        relation(2, vec![AddConstant(0, 4, 3, vec![1]), Not(0, 6, 5), Mul(0, 9, 1, 2)]),
        XOR | AND,
        20,
    )
    .unwrap();
    assert_eq!(
        r.gates,
        vec![
            Constant(0, 20, vec![1]),
            Xor(0, 4, 3, 20),
            Constant(0, 21, vec![1, 0, 0, 0]),
            Xor(0, 6, 5, 21),
            And(0, 9, 1, 2),
        ]
    );
    assert_eq!(next, 22);
}

#[test]
fn and_without_mul_aborts() {
    let r = exp_definable_from(relation(2, vec![And(0, 2, 0, 1)]), XOR | NOT, 10);
    assert_eq!(r.err(), Some(ReductionError::AndWithoutMul));
    let r = exp_definable_from(relation(2, vec![Xor(0, 2, 0, 1)]), AND | MUL, 10);
    assert_eq!(r.err(), Some(ReductionError::XorWithoutAdd));
}

#[test]
fn boolean_mask_needs_characteristic_two() {
    let r = exp_definable_from(relation(101, vec![Add(0, 2, 0, 1)]), XOR, 10);
    assert_eq!(r.err(), Some(ReductionError::BooleanGateOverLargeField));
    let r = exp_definable_from(relation(101, vec![Not(0, 2, 0)]), ADD, 10);
    assert_eq!(r.err(), Some(ReductionError::BooleanGateOverLargeField));
}

#[test]
fn temporaries_can_run_out() {
    let r = exp_definable_from(relation(2, vec![AddConstant(0, 2, 0, vec![1])]), ADD, u64::MAX);
    assert_eq!(r.err(), Some(ReductionError::TemporaryWiresExhausted));
}

#[test]
fn nested_bodies_are_reduced_first() {
    let gates = vec![AnonCall(
        vec![Wire(0, 5)],
        vec![Wire(0, 0)],
        0,
        0,
        vec![Add(0, 0, 1, 1)],
    )];
    let (r, _) = exp_definable_from(relation(2, gates), XOR, 7).unwrap();
    assert_eq!(
        r.gates,
        vec![AnonCall(vec![Wire(0, 5)], vec![Wire(0, 0)], 0, 0, vec![Xor(0, 0, 1, 1)])]
    );
}

#[test]
fn temporaries_start_above_every_wire() {
    let rel = relation(2, vec![PrivateInput(0, 0), AddConstant(0, 9, 0, vec![1])]);
    let r = exp_definable(rel, ADD).unwrap();
    assert_eq!(
        r.gates,
        vec![PrivateInput(0, 0), Constant(0, 10, vec![1]), Add(0, 9, 0, 10)]
    );
}

#[test]
fn features_are_bits_of_the_mask() {
    assert!(contains_feature(ADD | XOR, XOR));
    assert!(!contains_feature(ADD | XOR, MUL));
}
