use zki_sieve::examples::{
    encode_negative_one, example_header, example_private_inputs, example_private_inputs_incorrect,
    example_public_inputs, example_relation, literal32, EXAMPLE_MODULUS,
};
use zki_sieve::gates::Gate;
use zki_sieve::validator::Validator;

#[test]
fn test_examples() {
    let header = example_header();
    assert_eq!(header.types, vec![vec![101, 0, 0, 0]]);
    assert_eq!(example_public_inputs().header, header);
    assert_eq!(example_public_inputs().inputs[0].values, vec![literal32(5)]);
    assert_eq!(
        example_private_inputs().inputs[0].values,
        vec![literal32(3), literal32(4)]
    );
    let relation = example_relation();
    assert_eq!(relation.header, header);
    assert_eq!(relation.functions.len(), 1);
    assert_eq!(relation.gates.len(), 13);
    assert_eq!(relation.gates[8], Gate::MulConstant(0, 7, 3, vec![100]));
}

#[test]
fn literal32_is_little_endian() {
    assert_eq!(literal32(EXAMPLE_MODULUS), vec![101, 0, 0, 0]);
    assert_eq!(literal32(0x01020304), vec![4, 3, 2, 1]);
}

#[test]
fn negative_one_lowers_the_first_byte() {
    assert_eq!(encode_negative_one(&vec![101, 0, 0, 0]), vec![100, 0, 0, 0]);
}

#[test]
fn incorrect_private_inputs_still_validate() {
    let mut v = Validator::new_as_prover();
    v.ingest_instance(&example_public_inputs());
    v.ingest_witness(&example_private_inputs_incorrect());
    v.ingest_relation(&example_relation());
    assert_eq!(v.get_violations(), Vec::<String>::new());
}
