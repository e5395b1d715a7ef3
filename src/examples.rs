//! A small statement (a right triangle) used in tests and documentation.
use vstd::prelude::*;

use crate::gates::Gate;
use crate::gates::WireListElement;
use crate::structs::{
    same_header_bytes, Count, Function, FunctionBody, Header, Inputs, PrivateInputs, PublicInputs, Relation, IR_VERSION,
    PROFILE_ARITHMETIC,
};
use crate::TypeId;

verus! {

pub const EXAMPLE_MODULUS: u32 = 101;

/// The four little-endian bytes of `v`.
pub open spec fn le_bytes32(v: u32) -> Seq<u8> {
    seq![(v % 256) as u8, ((v / 256) % 256) as u8, ((v / 65536) % 256) as u8, (v / 16777216) as u8]
}

/// `v` as a four-byte little-endian value.
pub fn literal32(v: u32) -> (r: Vec<u8>)
    ensures
        r@ == le_bytes32(v),
{
    let r = vec![(v % 256) as u8, ((v / 256) % 256) as u8, ((v / 65536) % 256) as u8, (v / 16777216) as u8];
    assert(r@ =~= le_bytes32(v));
    r
}

/// The encoding of `modulo - 1`, for a modulus whose lowest byte is not zero.
pub fn encode_negative_one(modulo: &Vec<u8>) -> (r: Vec<u8>)
    requires
        modulo@.len() > 0,
        modulo@[0] > 0,
    ensures
        r@ == modulo@.update(0, (modulo@[0] - 1) as u8),
{
    let mut neg_one = modulo.clone();
    assert(neg_one@ =~= modulo@);
    let low = neg_one[0];
    neg_one.set(0, low - 1);
    neg_one
}

/// The example's header: the current version, the arithmetic profile, one
/// type of characteristic 101.
pub open spec fn is_example_header(h: Header) -> bool {
    &&& h.version@ == IR_VERSION@
    &&& h.profile@ == PROFILE_ARITHMETIC@
    &&& h.field_degree == 1
    &&& h.types@.len() == 1
    &&& h.types@[0]@ == le_bytes32(EXAMPLE_MODULUS)
}

/// A call of the example's `square` function from `input` to `output`.
pub open spec fn is_square_call(g: Gate, output: u64, input: u64) -> bool {
    g matches Gate::Call(n, o, i) && n@ == "square"@ && o@ == seq![WireListElement::Wire(0, output)] && i@ == seq![
        WireListElement::Wire(0, input),
    ]
}

/// The gates of the right-triangle relation.
pub open spec fn is_example_gates(gs: Seq<Gate>) -> bool {
    &&& gs.len() == 13
    &&& gs[0] == Gate::New(0, 0, 2)
    &&& gs[1] == Gate::PublicInput(0, 0)
    &&& gs[2] == Gate::PrivateInput(0, 1)
    &&& gs[3] == Gate::PrivateInput(0, 2)
    &&& is_square_call(gs[4], 3, 0)
    &&& is_square_call(gs[5], 4, 1)
    &&& is_square_call(gs[6], 5, 2)
    &&& gs[7] == Gate::Add(0, 6, 4, 5)
    &&& gs[8] matches Gate::MulConstant(t, o, i, v) && t == 0 && o == 7 && i == 3 && v@ == seq![100u8]
    &&& gs[9] == Gate::Add(0, 8, 6, 7)
    &&& gs[10] == Gate::AssertZero(0, 8)
    &&& gs[11] == Gate::Delete(0, 0, 2)
    &&& gs[12] == Gate::Delete(0, 3, 8)
}

/// The example's `square` function: one output, one input, `0 = 1 * 1`.
pub open spec fn is_square_function(f: Function) -> bool {
    &&& f.name@ == "square"@
    &&& f.output_count@ == seq![Count { type_id: 0, count: 1 }]
    &&& f.input_count@ == seq![Count { type_id: 0, count: 1 }]
    &&& f.body matches FunctionBody::Gates(g) && g@ == seq![Gate::Mul(0, 0, 1, 1)]
}

pub fn example_header_in_type(modulo: Vec<u8>) -> (r: Header)
    ensures
        r.version@ == IR_VERSION@,
        r.profile@ == PROFILE_ARITHMETIC@,
        r.types@ == seq![modulo],
        r.field_degree == 1,
{
    let types = vec![modulo];
    let r = Header::new(types);
    r
}

pub fn example_header() -> (r: Header)
    ensures
        is_example_header(r),
{
    example_header_in_type(literal32(EXAMPLE_MODULUS))
}

/// Public inputs of the example: the hypotenuse, 5.
pub fn example_public_inputs_h(header: &Header) -> (r: PublicInputs)
    ensures
        same_header_bytes(r.header, *header),
        r.inputs@.len() == 1,
        r.inputs@[0].values@.len() == 1,
        r.inputs@[0].values@[0]@ == le_bytes32(5),
{
    PublicInputs { header: header.copy(), inputs: vec![Inputs { values: vec![literal32(5)] }] }
}

/// Private inputs of the example: the legs, 3 and 4.
pub fn example_private_inputs_h(header: &Header) -> (r: PrivateInputs)
    ensures
        same_header_bytes(r.header, *header),
        r.inputs@.len() == 1,
        r.inputs@[0].values@.len() == 2,
        r.inputs@[0].values@[0]@ == le_bytes32(3),
        r.inputs@[0].values@[1]@ == le_bytes32(4),
{
    PrivateInputs { header: header.copy(), inputs: vec![Inputs { values: vec![literal32(3), literal32(4)] }] }
}

/// Private inputs that do not satisfy the example: 3 and 5.
pub fn example_private_inputs_incorrect_h(header: &Header) -> (r: PrivateInputs)
    ensures
        same_header_bytes(r.header, *header),
        r.inputs@.len() == 1,
        r.inputs@[0].values@.len() == 2,
        r.inputs@[0].values@[0]@ == le_bytes32(3),
        r.inputs@[0].values@[1]@ == le_bytes32(5),
{
    PrivateInputs { header: header.copy(), inputs: vec![Inputs { values: vec![literal32(3), literal32(4 + 1)] }] }
}

/// The right-triangle relation: squares of the legs sum to the square of
/// the hypotenuse, through a `square` function.
pub fn example_relation_h(header: &Header) -> (r: Relation)
    ensures
        same_header_bytes(r.header, *header),
        r.plugins@.len() == 0,
        r.conversions@.len() == 0,
        r.functions@.len() == 1,
        is_square_function(r.functions@[0]),
        is_example_gates(r.gates@),
{
    let type_id: TypeId = 0;
    let body = vec![Gate::Mul(type_id, 0, 1, 1)];
    assert(body@ =~= seq![Gate::Mul(0, 0, 1, 1)]);
    let outs = vec![Count::new(type_id, 1)];
    let ins = vec![Count::new(type_id, 1)];
    assert(outs@ =~= seq![Count { type_id: 0, count: 1 }]);
    assert(ins@ =~= seq![Count { type_id: 0, count: 1 }]);
    let square = Function::new(String::from_str("square"), outs, ins, FunctionBody::Gates(body));
    let functions = vec![square];
    let call3 = square_call(3, 0);
    let call4 = square_call(4, 1);
    let call5 = square_call(5, 2);
    let hundred = vec![100u8];
    assert(hundred@ =~= seq![100u8]);
    let gates = vec![
        Gate::New(type_id, 0, 2),
        Gate::PublicInput(type_id, 0),
        Gate::PrivateInput(type_id, 1),
        Gate::PrivateInput(type_id, 2),
        call3,
        call4,
        call5,
        Gate::Add(type_id, 6, 4, 5),
        Gate::MulConstant(type_id, 7, 3, hundred),
        Gate::Add(type_id, 8, 6, 7),
        Gate::AssertZero(type_id, 8),
        Gate::Delete(type_id, 0, 2),
        Gate::Delete(type_id, 3, 8),
    ];
    Relation { header: header.copy(), plugins: Vec::new(), conversions: Vec::new(), functions, gates }
}

fn square_call(output: u64, input: u64) -> (r: Gate)
    ensures
        is_square_call(r, output, input),
{
    let o = vec![WireListElement::Wire(0, output)];
    let i = vec![WireListElement::Wire(0, input)];
    assert(o@ =~= seq![WireListElement::Wire(0, output)]);
    assert(i@ =~= seq![WireListElement::Wire(0, input)]);
    Gate::Call(String::from_str("square"), o, i)
}

pub fn example_public_inputs() -> (r: PublicInputs)
    ensures
        is_example_header(r.header),
        r.inputs@.len() == 1,
        r.inputs@[0].values@.len() == 1,
        r.inputs@[0].values@[0]@ == le_bytes32(5),
{
    example_public_inputs_h(&example_header())
}

pub fn example_private_inputs() -> (r: PrivateInputs)
    ensures
        is_example_header(r.header),
        r.inputs@.len() == 1,
        r.inputs@[0].values@.len() == 2,
        r.inputs@[0].values@[0]@ == le_bytes32(3),
        r.inputs@[0].values@[1]@ == le_bytes32(4),
{
    example_private_inputs_h(&example_header())
}

pub fn example_private_inputs_incorrect() -> (r: PrivateInputs)
    ensures
        is_example_header(r.header),
        r.inputs@.len() == 1,
        r.inputs@[0].values@.len() == 2,
        r.inputs@[0].values@[1]@ == le_bytes32(5),
{
    example_private_inputs_incorrect_h(&example_header())
}

pub fn example_relation() -> (r: Relation)
    ensures
        is_example_header(r.header),
        r.plugins@.len() == 0,
        r.conversions@.len() == 0,
        r.functions@.len() == 1,
        is_square_function(r.functions@[0]),
        is_example_gates(r.gates@),
{
    example_relation_h(&example_header())
}

} // verus!
