//! Messages and declarations of the IR: header, inputs, relation, functions.
use vstd::prelude::*;

use crate::gates::Gate;
use crate::{TypeId, Value};

verus! {

/// Version of the IR that this library produces.
pub const IR_VERSION: &'static str = "2.0.0";

/// Profile under which the arithmetic gates are allowed.
pub const PROFILE_ARITHMETIC: &'static str = "arithmetic";

/// Profile under which the boolean gates are allowed.
pub const PROFILE_BOOLEAN: &'static str = "boolean";

/// Field descriptors shared by every message of a stream: the characteristic
/// of each type id, the degree of the fields, the profile and the version.
#[derive(Clone, Debug, PartialEq, Eq)]
pub struct Header {
    pub version: String,
    pub profile: String,
    pub types: Vec<Value>,
    pub field_degree: u32,
}

impl Header {
    /// A header of the current version, arithmetic profile, degree one.
    pub fn new(types: Vec<Value>) -> (r: Header)
        ensures
            r.version@ == IR_VERSION@,
            r.profile@ == PROFILE_ARITHMETIC@,
            r.types == types,
            r.field_degree == 1,
    {
        Header {
            version: String::from_str(IR_VERSION),
            profile: String::from_str(PROFILE_ARITHMETIC),
            types,
            field_degree: 1,
        }
    }
}

/// Two headers with the same strings, degree, and bytes per type.
pub open spec fn same_header_bytes(a: Header, b: Header) -> bool {
    &&& a.version == b.version
    &&& a.profile == b.profile
    &&& a.field_degree == b.field_degree
    &&& a.types@.len() == b.types@.len()
    &&& forall|i: int| 0 <= i < a.types@.len() ==> (#[trigger] a.types@[i])@ == b.types@[i]@
}

impl Header {
    /// A copy of the header: the same strings, and the same bytes per type.
    pub fn copy(&self) -> (r: Header)
        ensures
            same_header_bytes(r, *self),
            r.version == self.version,
            r.profile == self.profile,
            r.field_degree == self.field_degree,
            r.types@.len() == self.types@.len(),
            forall|i: int| 0 <= i < self.types@.len() ==> (#[trigger] r.types@[i])@ == self.types@[i]@,
    {
        let mut types: Vec<Value> = Vec::new();
        let mut i: usize = 0;
        while i < self.types.len()
            invariant
                i <= self.types@.len(),
                types@.len() == i,
                forall|j: int| 0 <= j < i ==> (#[trigger] types@[j])@ == self.types@[j]@,
            decreases self.types@.len() - i,
        {
            let v = self.types[i].clone();
            types.push(v);
            i += 1;
        }
        Header { version: self.version.clone(), profile: self.profile.clone(), types, field_degree: self.field_degree }
    }
}

/// The values of one type id, consumed in order by input gates.
#[derive(Clone, Debug, PartialEq, Eq)]
pub struct Inputs {
    pub values: Vec<Value>,
}

/// A message of public input values, one list per type id.
#[derive(Clone, Debug, PartialEq, Eq)]
pub struct PublicInputs {
    pub header: Header,
    pub inputs: Vec<Inputs>,
}

/// A message of private input values, one list per type id.
#[derive(Clone, Debug, PartialEq, Eq)]
pub struct PrivateInputs {
    pub header: Header,
    pub inputs: Vec<Inputs>,
}

/// A number of wires of one type.
#[derive(Clone, Copy, Debug, PartialEq, Eq, Hash, Structural)]
pub struct Count {
    pub type_id: TypeId,
    pub count: u64,
}

impl Count {
    pub fn new(type_id: TypeId, count: u64) -> (r: Count)
        ensures
            r.type_id == type_id,
            r.count == count,
    {
        Count { type_id, count }
    }
}

/// A legal cast from `input_count` wires of one type to `output_count` wires
/// of another.
#[derive(Clone, Copy, Debug, PartialEq, Eq, Hash, Structural)]
pub struct Conversion {
    pub output_count: Count,
    pub input_count: Count,
}

impl Conversion {
    pub fn new(output_count: Count, input_count: Count) -> (r: Conversion)
        ensures
            r.output_count == output_count,
            r.input_count == input_count,
    {
        Conversion { output_count, input_count }
    }
}

/// An external gate family: a function whose body is named, not written out.
#[derive(Clone, Debug, PartialEq, Eq)]
pub struct PluginBody {
    pub name: String,
    pub operation: String,
    pub params: Vec<String>,
    /// Public input values consumed, per type id.
    pub public_count: Vec<Count>,
    /// Private input values consumed, per type id.
    pub private_count: Vec<Count>,
}

#[derive(Debug, PartialEq, Eq)]
pub enum FunctionBody {
    Gates(Vec<Gate>),
    PluginBody(PluginBody),
}

/// A named subcircuit with its signature: output and input counts, and the
/// public and private input values that a call consumes, per type.
#[derive(Debug, PartialEq, Eq)]
pub struct Function {
    pub name: String,
    pub output_count: Vec<Count>,
    pub input_count: Vec<Count>,
    pub public_count: Vec<Count>,
    pub private_count: Vec<Count>,
    pub body: FunctionBody,
}

impl Function {
    /// A function that consumes no input values.
    pub fn new(name: String, output_count: Vec<Count>, input_count: Vec<Count>, body: FunctionBody) -> (r: Function)
        ensures
            r.name == name,
            r.output_count == output_count,
            r.input_count == input_count,
            r.public_count@.len() == 0,
            r.private_count@.len() == 0,
            r.body == body,
    {
        Function { name, output_count, input_count, public_count: Vec::new(), private_count: Vec::new(), body }
    }
}

/// A relation message: plugins and conversions in use, functions, gates.
#[derive(Debug, PartialEq, Eq)]
pub struct Relation {
    pub header: Header,
    pub plugins: Vec<String>,
    pub conversions: Vec<Conversion>,
    pub functions: Vec<Function>,
    pub gates: Vec<Gate>,
}

} // verus!
