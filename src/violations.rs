//! The texts of the validator's diagnostics.
use vstd::prelude::*;

use crate::field::{decimal, le_nat, u64_to_decimal, value_to_decimal};

verus! {

pub open spec fn msg_characteristic_too_small() -> Seq<char> {
    "The field_characteristic should be > 1"@
}

pub open spec fn msg_degree_not_one() -> Seq<char> {
    "field_degree must be = 1"@
}

pub open spec fn msg_boolean_needs_two() -> Seq<char> {
    "With profile 'boolean', the field characteristic can only be 2."@
}

pub open spec fn msg_unknown_profile() -> Seq<char> {
    "The profile name should match either 'arithmetic' or 'boolean'."@
}

pub open spec fn msg_bad_version() -> Seq<char> {
    "The profile version should match the following format <major>.<minor>.<patch>."@
}

pub open spec fn msg_characteristic_mismatch() -> Seq<char> {
    "The field_characteristic field is not consistent across headers."@
}

pub open spec fn msg_degree_mismatch() -> Seq<char> {
    "The field_degree is not consistent across headers."@
}

pub open spec fn msg_profile_mismatch() -> Seq<char> {
    "The profile name is not consistent across headers."@
}

pub open spec fn msg_version_mismatch() -> Seq<char> {
    "The profile version is not consistent across headers."@
}

pub open spec fn msg_unexpected_private_inputs() -> Seq<char> {
    "As verifier, got an unexpected Witness message."@
}

pub open spec fn msg_undeclared_type(t: nat) -> Seq<char> {
    "The type id "@ + decimal(t) + " is not declared in the header."@
}

pub open spec fn msg_empty(subject: Seq<char>) -> Seq<char> {
    "The "@ + subject + " is empty."@
}

pub open spec fn msg_not_in_field(subject: Seq<char>, v: Seq<u8>, c: Seq<u8>) -> Seq<char> {
    "The "@ + subject + " cannot be represented in the field specified in Header ("@ + decimal(
        le_nat(v),
    ) + " >= "@ + decimal(le_nat(c)) + ")."@
}

pub open spec fn msg_arithmetic_in_boolean(name: Seq<char>) -> Seq<char> {
    "Arithmetic gate found ("@ + name + "), while boolean circuit."@
}

pub open spec fn msg_boolean_in_arithmetic(name: Seq<char>) -> Seq<char> {
    "Boolean gate found ("@ + name + "), while arithmetic circuit."@
}

pub open spec fn msg_undefined(w: u64) -> Seq<char> {
    "The wire "@ + decimal(w as nat)
        + " is used but was not assigned a value, or has been freed already."@
}

pub open spec fn msg_ssa(w: u64) -> Seq<char> {
    "The wire "@ + decimal(w as nat)
        + " has already been initialized before. This violates the SSA property."@
}

pub open spec fn msg_no_public_value(w: u64) -> Seq<char> {
    "No value available for the Instance wire "@ + decimal(w as nat)
}

pub open spec fn msg_no_private_value(w: u64) -> Seq<char> {
    "No value available for the Witness wire "@ + decimal(w as nat)
}

pub open spec fn msg_too_many_public(n: u64) -> Seq<char> {
    "Too many Instance values ("@ + decimal(n as nat) + " not consumed)"@
}

pub open spec fn msg_too_many_private(n: u64) -> Seq<char> {
    "Too many Witness values ("@ + decimal(n as nat) + " not consumed)"@
}

pub open spec fn msg_short_public(callee: Seq<char>) -> Seq<char> {
    "Not enough Instance values for "@ + callee + "."@
}

pub open spec fn msg_short_private(callee: Seq<char>) -> Seq<char> {
    "Not enough Witness values for "@ + callee + "."@
}

pub open spec fn callee_named(name: Seq<char>) -> Seq<char> {
    "the call to "@ + name
}

pub open spec fn callee_anonymous() -> Seq<char> {
    "an anonymous call"@
}

/// The bytes of a value as a list: `[1, 0, 255]`.
pub open spec fn bytes_joined(v: Seq<u8>) -> Seq<char>
    decreases v.len(),
{
    if v.len() == 0 {
        Seq::empty()
    } else if v.len() == 1 {
        decimal(v[0] as nat)
    } else {
        bytes_joined(v.drop_last()) + ", "@ + decimal(v.last() as nat)
    }
}

pub open spec fn bytes_list(v: Seq<u8>) -> Seq<char> {
    "["@ + bytes_joined(v) + "]"@
}

pub open spec fn subject_public_value(v: Seq<u8>) -> Seq<char> {
    "instance value "@ + bytes_list(v)
}

pub open spec fn subject_private_value(v: Seq<u8>) -> Seq<char> {
    "witness value "@ + bytes_list(v)
}

pub open spec fn subject_constant() -> Seq<char> {
    "constant of a Constant"@
}

pub open spec fn subject_add_constant(o: u64) -> Seq<char> {
    "constant of AddConstant "@ + decimal(o as nat)
}

pub open spec fn subject_mul_constant(o: u64) -> Seq<char> {
    "constant of MulConstant "@ + decimal(o as nat)
}

pub fn text(s: &str) -> (r: String)
    ensures
        r@ == s@,
{
    String::from_str(s)
}

fn around(a: &str, b: String, c: &str) -> (r: String)
    ensures
        r@ == a@ + b@ + c@,
{
    let mut s = String::from_str(a);
    s.append(b.as_str());
    s.append(c);
    s
}

fn prefixed(a: &str, b: String) -> (r: String)
    ensures
        r@ == a@ + b@,
{
    let mut s = String::from_str(a);
    s.append(b.as_str());
    s
}

pub fn undeclared_type(t: u64) -> (r: String)
    ensures
        r@ == msg_undeclared_type(t as nat),
{
    around("The type id ", u64_to_decimal(t), " is not declared in the header.")
}

pub fn empty(subject: String) -> (r: String)
    ensures
        r@ == msg_empty(subject@),
{
    around("The ", subject, " is empty.")
}

pub fn not_in_field(subject: &String, v: &Vec<u8>, c: &Vec<u8>) -> (r: String)
    ensures
        r@ == msg_not_in_field(subject@, v@, c@),
{
    let mut s = String::from_str("The ");
    s.append(subject.as_str());
    s.append(" cannot be represented in the field specified in Header (");
    let dv = value_to_decimal(v);
    s.append(dv.as_str());
    s.append(" >= ");
    let dc = value_to_decimal(c);
    s.append(dc.as_str());
    s.append(").");
    s
}

pub fn arithmetic_in_boolean(name: &str) -> (r: String)
    ensures
        r@ == msg_arithmetic_in_boolean(name@),
{
    let mut s = String::from_str("Arithmetic gate found (");
    s.append(name);
    s.append("), while boolean circuit.");
    s
}

pub fn boolean_in_arithmetic(name: &str) -> (r: String)
    ensures
        r@ == msg_boolean_in_arithmetic(name@),
{
    let mut s = String::from_str("Boolean gate found (");
    s.append(name);
    s.append("), while arithmetic circuit.");
    s
}

pub fn undefined(w: u64) -> (r: String)
    ensures
        r@ == msg_undefined(w),
{
    around(
        "The wire ",
        u64_to_decimal(w),
        " is used but was not assigned a value, or has been freed already.",
    )
}

pub fn ssa(w: u64) -> (r: String)
    ensures
        r@ == msg_ssa(w),
{
    around(
        "The wire ",
        u64_to_decimal(w),
        " has already been initialized before. This violates the SSA property.",
    )
}

pub fn no_public_value(w: u64) -> (r: String)
    ensures
        r@ == msg_no_public_value(w),
{
    prefixed("No value available for the Instance wire ", u64_to_decimal(w))
}

pub fn no_private_value(w: u64) -> (r: String)
    ensures
        r@ == msg_no_private_value(w),
{
    prefixed("No value available for the Witness wire ", u64_to_decimal(w))
}

pub fn too_many_public(n: u64) -> (r: String)
    ensures
        r@ == msg_too_many_public(n),
{
    around("Too many Instance values (", u64_to_decimal(n), " not consumed)")
}

pub fn too_many_private(n: u64) -> (r: String)
    ensures
        r@ == msg_too_many_private(n),
{
    around("Too many Witness values (", u64_to_decimal(n), " not consumed)")
}

pub fn short_public(callee: String) -> (r: String)
    ensures
        r@ == msg_short_public(callee@),
{
    around("Not enough Instance values for ", callee, ".")
}

pub fn short_private(callee: String) -> (r: String)
    ensures
        r@ == msg_short_private(callee@),
{
    around("Not enough Witness values for ", callee, ".")
}

pub fn callee_text(name: &String) -> (r: String)
    ensures
        r@ == callee_named(name@),
{
    let mut s = String::from_str("the call to ");
    s.append(name.as_str());
    s
}

pub fn bytes_list_text(v: &Vec<u8>) -> (r: String)
    ensures
        r@ == bytes_list(v@),
{
    let mut joined = String::new();
    let mut i: usize = 0;
    while i < v.len()
        invariant
            i <= v.len(),
            joined@ == bytes_joined(v@.take(i as int)),
        decreases v.len() - i,
    {
        assert(v@.take(i + 1).drop_last() =~= v@.take(i as int));
        let d = u64_to_decimal(v[i] as u64);
        if i > 0 {
            joined.append(", ");
        } else {
            assert(v@.take(0) =~= Seq::<u8>::empty());
        }
        joined.append(d.as_str());
        i += 1;
    }
    assert(v@.take(v.len() as int) =~= v@);
    around("[", joined, "]")
}

pub fn subject_public(v: &Vec<u8>) -> (r: String)
    ensures
        r@ == subject_public_value(v@),
{
    prefixed("instance value ", bytes_list_text(v))
}

pub fn subject_private(v: &Vec<u8>) -> (r: String)
    ensures
        r@ == subject_private_value(v@),
{
    prefixed("witness value ", bytes_list_text(v))
}

pub fn subject_add(o: u64) -> (r: String)
    ensures
        r@ == subject_add_constant(o),
{
    prefixed("constant of AddConstant ", u64_to_decimal(o))
}

pub fn subject_mul(o: u64) -> (r: String)
    ensures
        r@ == subject_mul_constant(o),
{
    prefixed("constant of MulConstant ", u64_to_decimal(o))
}

} // verus!
