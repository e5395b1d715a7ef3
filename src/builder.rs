//! Incremental construction of relations: wire allocation per type, function
//! bodies with canonical outputs, and call-site checks against signatures.
use vstd::prelude::*;
use std::collections::HashMap;

use crate::gates::{
    deletes_an_output, expand, renumber_prefix, replace_output_wires, well_formed_list, Gate, WireList,
    WireListElement, WireListError,
};
use crate::structs::{
    Conversion, Count, Function, FunctionBody, Header, Inputs, PluginBody, PrivateInputs, PublicInputs, Relation,
};
use crate::{TypeId, Value, WireId};

verus! {

broadcast use vstd::std_specs::hash::group_hash_axioms;

/// The output id given to gates that have none.
pub const NO_OUTPUT: WireId = 0xffff_ffff_ffff_ffff;

/// An inclusive range of wire ids of one type.
#[derive(Clone, Copy, Debug, PartialEq, Eq, Structural)]
pub struct WireRange {
    pub first_id: WireId,
    pub last_id: WireId,
}

impl WireRange {
    pub fn new(first_id: WireId, last_id: WireId) -> (r: WireRange)
        ensures
            r.first_id == first_id,
            r.last_id == last_id,
    {
        WireRange { first_id, last_id }
    }
}

/// A gate as a builder receives it: without its output wire, which the
/// builder allocates.
#[derive(Debug, PartialEq, Eq)]
pub enum BuildGate {
    Constant(TypeId, Value),
    AssertZero(TypeId, WireId),
    Copy(TypeId, WireId),
    Add(TypeId, WireId, WireId),
    Mul(TypeId, WireId, WireId),
    AddConstant(TypeId, WireId, Value),
    MulConstant(TypeId, WireId, Value),
    And(TypeId, WireId, WireId),
    Xor(TypeId, WireId, WireId),
    Not(TypeId, WireId),
    /// PublicInput(type_id, value given now, if any)
    PublicInput(TypeId, Option<Value>),
    /// PrivateInput(type_id, value given now, if any)
    PrivateInput(TypeId, Option<Value>),
    New(TypeId, WireId, WireId),
    Delete(TypeId, WireId, WireId),
}

/// A gate whose outputs are ranges that the builder allocates.
#[derive(Debug, PartialEq, Eq)]
pub enum BuildComplexGate {
    /// Call(function name, input ranges)
    Call(String, Vec<WireRange>),
    /// Convert(output type, output count, input type, first input, last input)
    Convert(TypeId, u64, TypeId, WireId, WireId),
}

impl BuildGate {
    pub open spec fn type_of(&self) -> TypeId {
        match *self {
            BuildGate::Constant(t, _) => t,
            BuildGate::AssertZero(t, _) => t,
            BuildGate::Copy(t, _) => t,
            BuildGate::Add(t, _, _) => t,
            BuildGate::Mul(t, _, _) => t,
            BuildGate::AddConstant(t, _, _) => t,
            BuildGate::MulConstant(t, _, _) => t,
            BuildGate::And(t, _, _) => t,
            BuildGate::Xor(t, _, _) => t,
            BuildGate::Not(t, _) => t,
            BuildGate::PublicInput(t, _) => t,
            BuildGate::PrivateInput(t, _) => t,
            BuildGate::New(t, _, _) => t,
            BuildGate::Delete(t, _, _) => t,
        }
    }

    pub fn get_type_id(&self) -> (r: TypeId)
        ensures
            r == self.type_of(),
    {
        match self {
            BuildGate::Constant(t, _) => *t,
            BuildGate::AssertZero(t, _) => *t,
            BuildGate::Copy(t, _) => *t,
            BuildGate::Add(t, _, _) => *t,
            BuildGate::Mul(t, _, _) => *t,
            BuildGate::AddConstant(t, _, _) => *t,
            BuildGate::MulConstant(t, _, _) => *t,
            BuildGate::And(t, _, _) => *t,
            BuildGate::Xor(t, _, _) => *t,
            BuildGate::Not(t, _) => *t,
            BuildGate::PublicInput(t, _) => *t,
            BuildGate::PrivateInput(t, _) => *t,
            BuildGate::New(t, _, _) => *t,
            BuildGate::Delete(t, _, _) => *t,
        }
    }

    pub open spec fn outputs(&self) -> bool {
        !(*self is AssertZero || *self is New || *self is Delete)
    }

    pub fn has_output(&self) -> (r: bool)
        ensures
            r == self.outputs(),
    {
        match self {
            BuildGate::AssertZero(_, _) | BuildGate::New(_, _, _) | BuildGate::Delete(_, _, _) => false,
            _ => true,
        }
    }

    /// This gate, with `out` as its output wire.
    pub open spec fn gate_with(self, out: WireId) -> Gate {
        match self {
            BuildGate::Constant(t, v) => Gate::Constant(t, out, v),
            BuildGate::AssertZero(t, i) => Gate::AssertZero(t, i),
            BuildGate::Copy(t, i) => Gate::Copy(t, out, i),
            BuildGate::Add(t, l, r) => Gate::Add(t, out, l, r),
            BuildGate::Mul(t, l, r) => Gate::Mul(t, out, l, r),
            BuildGate::AddConstant(t, i, v) => Gate::AddConstant(t, out, i, v),
            BuildGate::MulConstant(t, i, v) => Gate::MulConstant(t, out, i, v),
            BuildGate::And(t, l, r) => Gate::And(t, out, l, r),
            BuildGate::Xor(t, l, r) => Gate::Xor(t, out, l, r),
            BuildGate::Not(t, i) => Gate::Not(t, out, i),
            BuildGate::PublicInput(t, _) => Gate::PublicInput(t, out),
            BuildGate::PrivateInput(t, _) => Gate::PrivateInput(t, out),
            BuildGate::New(t, first, last) => Gate::New(t, first, last),
            BuildGate::Delete(t, first, last) => Gate::Delete(t, first, last),
        }
    }

    pub fn with_output(self, out: WireId) -> (r: Gate)
        ensures
            r == self.gate_with(out),
    {
        match self {
            BuildGate::Constant(t, v) => Gate::Constant(t, out, v),
            BuildGate::AssertZero(t, i) => Gate::AssertZero(t, i),
            BuildGate::Copy(t, i) => Gate::Copy(t, out, i),
            BuildGate::Add(t, l, r) => Gate::Add(t, out, l, r),
            BuildGate::Mul(t, l, r) => Gate::Mul(t, out, l, r),
            BuildGate::AddConstant(t, i, v) => Gate::AddConstant(t, out, i, v),
            BuildGate::MulConstant(t, i, v) => Gate::MulConstant(t, out, i, v),
            BuildGate::And(t, l, r) => Gate::And(t, out, l, r),
            BuildGate::Xor(t, l, r) => Gate::Xor(t, out, l, r),
            BuildGate::Not(t, i) => Gate::Not(t, out, i),
            BuildGate::PublicInput(t, _) => Gate::PublicInput(t, out),
            BuildGate::PrivateInput(t, _) => Gate::PrivateInput(t, out),
            BuildGate::New(t, first, last) => Gate::New(t, first, last),
            BuildGate::Delete(t, first, last) => Gate::Delete(t, first, last),
        }
    }
}

/// The next id that the allocator hands out for type `t`.
pub open spec fn next_id(m: Map<TypeId, WireId>, t: TypeId) -> WireId {
    if m.contains_key(t) {
        m[t]
    } else {
        0
    }
}

fn get_next(next_available_id: &HashMap<TypeId, WireId>, t: TypeId) -> (r: WireId)
    ensures
        r == next_id(next_available_id@, t),
{
    match next_available_id.get(&t) {
        Some(v) => *v,
        None => 0,
    }
}

/// Allocates a new wire id of type `type_id`.
fn allocate(type_id: TypeId, next_available_id: &mut HashMap<TypeId, WireId>) -> (r: WireId)
    requires
        next_id(old(next_available_id)@, type_id) < u64::MAX,
    ensures
        r == next_id(old(next_available_id)@, type_id),
        final(next_available_id)@ == old(next_available_id)@.insert(type_id, (r + 1) as WireId),
{
    let out_id = get_next(next_available_id, type_id);
    next_available_id.insert(type_id, out_id + 1);
    out_id
}

/// Allocates `n` consecutive wire ids of type `type_id`.
fn multiple_alloc(type_id: TypeId, next_available_id: &mut HashMap<TypeId, WireId>, n: u64) -> (r: WireRange)
    requires
        n > 0,
        next_id(old(next_available_id)@, type_id) + n <= u64::MAX,
    ensures
        r.first_id == next_id(old(next_available_id)@, type_id),
        r.last_id == r.first_id + n - 1,
        final(next_available_id)@ == old(next_available_id)@.insert(type_id, (r.first_id + n) as WireId),
{
    let first_id = get_next(next_available_id, type_id);
    let next = first_id + n;
    next_available_id.insert(type_id, next);
    WireRange::new(first_id, next - 1)
}

/// How many wires of type `t` a list of counts declares.
pub open spec fn count_of(cs: Seq<Count>, t: TypeId) -> nat
    decreases cs.len(),
{
    if cs.len() == 0 {
        0
    } else {
        count_of(cs.drop_last(), t) + if cs.last().type_id == t {
            cs.last().count as nat
        } else {
            0nat
        }
    }
}

fn count_of_exec(cs: &Vec<Count>, t: TypeId) -> (r: u128)
    ensures
        r == count_of(cs@, t),
{
    let mut total: u128 = 0;
    let mut i: usize = 0;
    while i < cs.len()
        invariant
            i <= cs.len(),
            total == count_of(cs@.take(i as int), t),
            count_of(cs@.take(i as int), t) <= i * 0xffff_ffff_ffff_ffff,
        decreases cs.len() - i,
    {
        assert(cs@.take(i + 1).drop_last() =~= cs@.take(i as int));
        if cs[i].type_id == t {
            total = total + cs[i].count as u128;
        }
        i += 1;
    }
    assert(cs@.take(cs.len() as int) =~= cs@);
    total
}

fn copy_counts(v: &Vec<Count>) -> (r: Vec<Count>)
    ensures
        r@ == v@,
{
    let mut r: Vec<Count> = Vec::new();
    let mut i: usize = 0;
    while i < v.len()
        invariant
            i <= v.len(),
            r@ =~= v@.take(i as int),
        decreases v.len() - i,
    {
        r.push(v[i]);
        i += 1;
    }
    r
}

/// Receives finished messages.
pub trait Sink {
    fn push_public_inputs_message(&mut self, msg: PublicInputs);

    fn push_private_inputs_message(&mut self, msg: PrivateInputs);

    fn push_relation_message(&mut self, msg: Relation);
}

/// A sink that keeps every message in memory, in arrival order.
pub struct MemorySink {
    pub public_inputs: Vec<PublicInputs>,
    pub private_inputs: Vec<PrivateInputs>,
    pub relations: Vec<Relation>,
}

impl MemorySink {
    pub fn new() -> (r: MemorySink)
        ensures
            r.public_inputs@.len() == 0,
            r.private_inputs@.len() == 0,
            r.relations@.len() == 0,
    {
        MemorySink { public_inputs: Vec::new(), private_inputs: Vec::new(), relations: Vec::new() }
    }
}

impl Default for MemorySink {
    fn default() -> (r: MemorySink)
        ensures
            r.public_inputs@.len() == 0,
            r.private_inputs@.len() == 0,
            r.relations@.len() == 0,
    {
        MemorySink::new()
    }
}

impl Sink for MemorySink {
    fn push_public_inputs_message(&mut self, msg: PublicInputs) {
        self.public_inputs.push(msg);
    }

    fn push_private_inputs_message(&mut self, msg: PrivateInputs) {
        self.private_inputs.push(msg);
    }

    fn push_relation_message(&mut self, msg: Relation) {
        self.relations.push(msg);
    }
}

/// Why a builder refused a request.
#[derive(Clone, Copy, Debug, PartialEq, Eq, Structural)]
pub enum BuildError {
    /// The type id is not one of the builder's types.
    UndefinedType(u64),
    /// No wire id is left for this type.
    WiresExhausted(TypeId),
    UnknownFunction,
    InputCountMismatch,
    PublicCountMismatch,
    PrivateCountMismatch,
    OutputCountMismatch,
    /// A range, or a count of outputs, that holds no wire, or more wires
    /// than an id can count.
    EmptyRange,
    DuplicateFunction,
    NotAPlugin,
    EmptyFunctionName,
    EmptyPluginName,
    EmptyPluginOperation,
    /// A conversion was given public or private input values.
    ConvertWithInputs,
    /// A declared output of a function body is freed by the body.
    DeletedOutput(TypeId, WireId),
}

fn take_vec<T>(v: &mut Vec<T>) -> (r: Vec<T>)
    ensures
        r == *old(v),
        final(v)@.len() == 0,
{
    let mut empty: Vec<T> = Vec::new();
    std::mem::swap(v, &mut empty);
    empty
}

fn empty_inputs(n: usize) -> (r: Vec<Vec<Value>>)
    ensures
        r@.len() == n,
        forall|i: int| 0 <= i < n ==> (#[trigger] r@[i])@.len() == 0,
{
    let mut r: Vec<Vec<Value>> = Vec::new();
    while r.len() < n
        invariant
            r@.len() <= n,
            forall|i: int| 0 <= i < r@.len() ==> (#[trigger] r@[i])@.len() == 0,
        decreases n - r.len(),
    {
        r.push(Vec::new());
    }
    r
}

fn inputs_message(values: &mut Vec<Vec<Value>>) -> (r: Vec<Inputs>)
    ensures
        r@.len() == old(values)@.len(),
        final(values)@.len() == old(values)@.len(),
        forall|i: int| 0 <= i < r@.len() ==> (#[trigger] r@[i]).values == old(values)@[i],
        forall|i: int| 0 <= i < final(values)@.len() ==> (#[trigger] final(values)@[i])@.len() == 0,
{
    let ghost v0 = values@;
    let mut r: Vec<Inputs> = Vec::new();
    let mut i: usize = 0;
    while i < values.len()
        invariant
            i <= values@.len() == v0.len(),
            r@.len() == i,
            forall|j: int| 0 <= j < i ==> (#[trigger] r@[j]).values == v0[j],
            forall|j: int| 0 <= j < i ==> (#[trigger] values@[j])@.len() == 0,
            forall|j: int| i <= j < values@.len() ==> #[trigger] values@[j] == v0[j],
        decreases values@.len() - i,
    {
        let mut taken: Vec<Value> = Vec::new();
        values.set_and_swap(i, &mut taken);
        r.push(Inputs { values: taken });
        i += 1;
    }
    r
}

/// Buffers gates and input values, and hands complete messages to a sink
/// whenever a buffer reaches `max_len` entries.
struct MessageBuilder<S: Sink> {
    sink: S,
    types: Vec<Value>,
    public_inputs: Vec<Vec<Value>>,
    private_inputs: Vec<Vec<Value>>,
    public_len: usize,
    private_len: usize,
    plugins: Vec<String>,
    conversions: Vec<Conversion>,
    functions: Vec<Function>,
    gates: Vec<Gate>,
    /// Total number of gates in the buffered functions.
    functions_size: usize,
    pub max_len: usize,
}

impl<S: Sink> MessageBuilder<S> {
    spec fn wf(&self) -> bool {
        self.public_inputs@.len() == self.types@.len() && self.private_inputs@.len() == self.types@.len()
    }

    fn new(sink: S, types: &Vec<Value>) -> (r: Self)
        ensures
            r.wf(),
            r.sink == sink,
            r.types@.map_values(|v: Value| v@) == types@.map_values(|v: Value| v@),
            forall|i: int| 0 <= i < types@.len() ==> (#[trigger] r.public_inputs@[i])@.len() == 0,
            forall|i: int| 0 <= i < types@.len() ==> (#[trigger] r.private_inputs@[i])@.len() == 0,
            r.public_len == 0,
            r.private_len == 0,
            r.plugins@.len() == 0,
            r.conversions@.len() == 0,
            r.functions@.len() == 0,
            r.gates@.len() == 0,
            r.functions_size == 0,
            r.max_len == 100 * 1000,
    {
        let n = types.len();
        let mut owned: Vec<Value> = Vec::new();
        let mut i: usize = 0;
        while i < n
            invariant
                i <= n == types@.len(),
                owned@.len() == i,
                forall|j: int| 0 <= j < i ==> (#[trigger] owned@[j])@ == types@[j]@,
            decreases n - i,
        {
            let v = types[i].clone();
            owned.push(v);
            i += 1;
        }
        assert(owned@.map_values(|v: Value| v@) =~= types@.map_values(|v: Value| v@));
        MessageBuilder {
            sink,
            types: owned,
            public_inputs: empty_inputs(n),
            private_inputs: empty_inputs(n),
            public_len: 0,
            private_len: 0,
            plugins: Vec::new(),
            conversions: Vec::new(),
            functions: Vec::new(),
            gates: Vec::new(),
            functions_size: 0,
            max_len: 100 * 1000,
        }
    }

    fn header(&self) -> (r: Header) {
        Header::new(self.types.clone())
    }

    fn push_public_input_value(&mut self, type_id: TypeId, value: Value) -> (r: Result<(), BuildError>)
        requires
            old(self).wf(),
        ensures
            final(self).wf(),
            final(self).types == old(self).types,
            r is Ok <==> (type_id as int) < old(self).types@.len(),
    {
        let t = type_id as usize;
        if t >= self.public_inputs.len() {
            return Err(BuildError::UndefinedType(type_id as u64));
        }
        let mut list: Vec<Value> = Vec::new();
        self.public_inputs.set_and_swap(t, &mut list);
        list.push(value);
        self.public_inputs.set(t, list);
        if self.public_len < usize::MAX {
            self.public_len = self.public_len + 1;
        }
        if self.public_len >= self.max_len {
            self.flush_public_inputs();
        }
        Ok(())
    }

    fn push_private_input_value(&mut self, type_id: TypeId, value: Value) -> (r: Result<(), BuildError>)
        requires
            old(self).wf(),
        ensures
            final(self).wf(),
            final(self).types == old(self).types,
            r is Ok <==> (type_id as int) < old(self).types@.len(),
    {
        let t = type_id as usize;
        if t >= self.private_inputs.len() {
            return Err(BuildError::UndefinedType(type_id as u64));
        }
        let mut list: Vec<Value> = Vec::new();
        self.private_inputs.set_and_swap(t, &mut list);
        list.push(value);
        self.private_inputs.set(t, list);
        if self.private_len < usize::MAX {
            self.private_len = self.private_len + 1;
        }
        if self.private_len >= self.max_len {
            self.flush_private_inputs();
        }
        Ok(())
    }

    fn relation_len(&self) -> usize {
        let a = self.gates.len();
        let b = self.plugins.len();
        let c = self.conversions.len();
        let total: u128 = a as u128 + b as u128 + c as u128 + self.functions_size as u128;
        if total > usize::MAX as u128 {
            usize::MAX
        } else {
            total as usize
        }
    }

    fn push_gate(&mut self, gate: Gate)
        requires
            old(self).wf(),
        ensures
            final(self).wf(),
            final(self).types == old(self).types,
    {
        self.gates.push(gate);
        if self.relation_len() >= self.max_len {
            self.flush_relation();
        }
    }

    fn push_plugin(&mut self, plugin_name: String)
        requires
            old(self).wf(),
        ensures
            final(self).wf(),
            final(self).types == old(self).types,
    {
        self.plugins.push(plugin_name);
        if self.relation_len() >= self.max_len {
            self.flush_relation();
        }
    }

    fn push_conversion(&mut self, conversion: Conversion)
        requires
            old(self).wf(),
        ensures
            final(self).wf(),
            final(self).types == old(self).types,
    {
        self.conversions.push(conversion);
        if self.relation_len() >= self.max_len {
            self.flush_relation();
        }
    }

    fn push_function(&mut self, function: Function)
        requires
            old(self).wf(),
        ensures
            final(self).wf(),
            final(self).types == old(self).types,
    {
        let func_size = match &function.body {
            FunctionBody::Gates(gates) => gates.len(),
            FunctionBody::PluginBody(_) => 1,
        };
        self.functions_size = if self.functions_size > usize::MAX - func_size {
            usize::MAX
        } else {
            self.functions_size + func_size
        };
        self.functions.push(function);
        if self.relation_len() >= self.max_len {
            self.flush_relation();
        }
    }

    fn flush_public_inputs(&mut self)
        requires
            old(self).wf(),
        ensures
            final(self).wf(),
            final(self).types == old(self).types,
    {
        let inputs = inputs_message(&mut self.public_inputs);
        let msg = PublicInputs { header: self.header(), inputs };
        self.sink.push_public_inputs_message(msg);
        self.public_len = 0;
    }

    fn flush_private_inputs(&mut self)
        requires
            old(self).wf(),
        ensures
            final(self).wf(),
            final(self).types == old(self).types,
    {
        let inputs = inputs_message(&mut self.private_inputs);
        let msg = PrivateInputs { header: self.header(), inputs };
        self.sink.push_private_inputs_message(msg);
        self.private_len = 0;
    }

    fn flush_relation(&mut self)
        requires
            old(self).wf(),
        ensures
            final(self).wf(),
            final(self).types == old(self).types,
    {
        let msg = Relation {
            header: self.header(),
            plugins: self.plugins.clone(),
            conversions: self.conversions.clone(),
            functions: take_vec(&mut self.functions),
            gates: take_vec(&mut self.gates),
        };
        self.sink.push_relation_message(msg);
        self.functions_size = 0;
    }

    fn finish(self) -> S
        requires
            self.wf(),
    {
        let mut b = self;
        if b.public_inputs.len() > 0 {
            b.flush_public_inputs();
        }
        if b.private_inputs.len() > 0 {
            b.flush_private_inputs();
        }
        if b.gates.len() > 0 || b.functions.len() > 0 {
            b.flush_relation();
        }
        b.sink
    }
}

/// The counts that a call site is checked against.
pub struct FunctionCounts {
    pub input_count: Vec<Count>,
    pub output_count: Vec<Count>,
    pub public_count: Vec<Count>,
    pub private_count: Vec<Count>,
}

impl FunctionCounts {
    pub fn copy(&self) -> (r: FunctionCounts)
        ensures
            r.input_count@ == self.input_count@,
            r.output_count@ == self.output_count@,
            r.public_count@ == self.public_count@,
            r.private_count@ == self.private_count@,
    {
        FunctionCounts {
            input_count: copy_counts(&self.input_count),
            output_count: copy_counts(&self.output_count),
            public_count: copy_counts(&self.public_count),
            private_count: copy_counts(&self.private_count),
        }
    }
}

/// A declared function and its signature.
pub struct KnownFunction {
    pub name: String,
    pub counts: FunctionCounts,
}

/// A finished function with what its body consumes.
pub struct FunctionWithInfos {
    pub function: Function,
    pub public_count: Vec<Count>,
    pub private_count: Vec<Count>,
    pub used_conversions: Vec<Conversion>,
}

pub open spec fn is_known(fs: Seq<KnownFunction>, name: Seq<char>) -> bool {
    exists|i: int| 0 <= i < fs.len() && (#[trigger] fs[i]).name@ == name
}

fn find_function(fs: &Vec<KnownFunction>, name: &String) -> (r: Option<usize>)
    ensures
        r matches Some(i) ==> i < fs@.len() && fs@[i as int].name@ == name@ && forall|j: int|
            0 <= j < i ==> (#[trigger] fs@[j]).name@ != name@,
        r is None ==> !is_known(fs@, name@),
{
    let mut i: usize = 0;
    while i < fs.len()
        invariant
            i <= fs.len(),
            forall|j: int| 0 <= j < i ==> (#[trigger] fs@[j]).name@ != name@,
        decreases fs.len() - i,
    {
        if fs[i].name == *name {
            return Some(i);
        }
        i += 1;
    }
    None
}

/// Each range is non-empty and holds exactly the wires its count asks for.
pub open spec fn ranges_match(rs: Seq<WireRange>, cs: Seq<Count>) -> bool {
    rs.len() == cs.len() && forall|i: int|
        0 <= i < rs.len() ==> (#[trigger] rs[i]).first_id <= rs[i].last_id && rs[i].last_id - rs[i].first_id + 1
            == cs[i].count
}

fn ranges_match_exec(rs: &Vec<WireRange>, cs: &Vec<Count>) -> (r: bool)
    ensures
        r == ranges_match(rs@, cs@),
{
    if rs.len() != cs.len() {
        return false;
    }
    let mut i: usize = 0;
    while i < rs.len()
        invariant
            i <= rs.len() == cs.len(),
            forall|j: int|
                0 <= j < i ==> (#[trigger] rs@[j]).first_id <= rs@[j].last_id && rs@[j].last_id - rs@[j].first_id + 1
                    == cs@[j].count,
        decreases rs.len() - i,
    {
        let r = rs[i];
        if cs[i].count == 0 || r.first_id > r.last_id || r.last_id - r.first_id != cs[i].count - 1 {
            return false;
        }
        i += 1;
    }
    true
}

/// The ranges with the type of their count: a wire list.
pub open spec fn typed_ranges(rs: Seq<WireRange>, cs: Seq<Count>) -> Seq<WireListElement> {
    Seq::new(rs.len(), |i: int| WireListElement::WireRange(cs[i].type_id, rs[i].first_id, rs[i].last_id))
}

fn typed_ranges_exec(rs: &Vec<WireRange>, cs: &Vec<Count>) -> (r: WireList)
    requires
        rs@.len() == cs@.len(),
    ensures
        r@ == typed_ranges(rs@, cs@),
{
    let mut r: WireList = Vec::new();
    let mut i: usize = 0;
    while i < rs.len()
        invariant
            i <= rs.len() == cs.len(),
            r@ =~= typed_ranges(rs@, cs@).take(i as int),
        decreases rs.len() - i,
    {
        r.push(WireListElement::WireRange(cs[i].type_id, rs[i].first_id, rs[i].last_id));
        i += 1;
    }
    r
}

/// The values given per type id agree, type by type, with the counts; no
/// values are given beyond the last type id.
pub open spec fn values_match(cs: Seq<Count>, vals: Seq<Vec<Value>>) -> bool {
    &&& forall|i: int| 256 <= i < vals.len() ==> (#[trigger] vals[i])@.len() == 0
    &&& forall|t: TypeId| #[trigger] count_of(cs, t) == if (t as int) < vals.len() {
        vals[t as int]@.len()
    } else {
        0
    }
}

fn values_match_exec(cs: &Vec<Count>, vals: &Vec<Vec<Value>>) -> (r: bool)
    ensures
        r == values_match(cs@, vals@),
{
    let mut i: usize = 256;
    while i < vals.len()
        invariant
            256 <= i,
            forall|j: int| 256 <= j < i && j < vals@.len() ==> (#[trigger] vals@[j])@.len() == 0,
        decreases vals.len() - i,
    {
        if vals[i].len() != 0 {
            return false;
        }
        i += 1;
    }
    let mut t: u16 = 0;
    while t < 256
        invariant
            t <= 256,
            forall|j: int| 256 <= j < vals@.len() ==> (#[trigger] vals@[j])@.len() == 0,
            forall|u: TypeId|
                (u as u16) < t ==> #[trigger] count_of(cs@, u) == if (u as int) < vals@.len() {
                    vals@[u as int]@.len()
                } else {
                    0
                },
        decreases 256 - t,
    {
        let given: u128 = if (t as usize) < vals.len() {
            vals[t as usize].len() as u128
        } else {
            0
        };
        if count_of_exec(cs, t as u8) != given {
            return false;
        }
        t += 1;
    }
    true
}

/// Values are given only for declared type ids.
/// The conversion that a `Convert` request declares.
pub open spec fn conversion_of(out_t: TypeId, out_n: u64, in_t: TypeId, first: WireId, last: WireId) -> Conversion {
    Conversion {
        output_count: Count { type_id: out_t, count: out_n },
        input_count: Count { type_id: in_t, count: (last - first + 1) as u64 },
    }
}

pub open spec fn values_declared(vals: Seq<Vec<Value>>, type_count: nat) -> bool {
    forall|i: int| 0 <= i < vals.len() && (#[trigger] vals[i])@.len() > 0 ==> i < type_count
}

/// Whether every count can be allocated in turn from `m`.
pub open spec fn can_allocate(m: Map<TypeId, WireId>, cs: Seq<Count>) -> bool
    decreases cs.len(),
{
    if cs.len() == 0 {
        true
    } else {
        let prev = allocate_ranges(m, cs.drop_last());
        can_allocate(m, cs.drop_last()) && cs.last().count > 0 && next_id(prev.1, cs.last().type_id)
            + cs.last().count <= u64::MAX
    }
}

/// The ranges allocated, in turn, for each count, and the allocator after.
pub open spec fn allocate_ranges(m: Map<TypeId, WireId>, cs: Seq<Count>) -> (Seq<WireRange>, Map<TypeId, WireId>)
    decreases cs.len(),
{
    if cs.len() == 0 {
        (Seq::empty(), m)
    } else {
        let prev = allocate_ranges(m, cs.drop_last());
        let c = cs.last();
        let first = next_id(prev.1, c.type_id);
        (
            prev.0.push(WireRange { first_id: first, last_id: (first + c.count - 1) as WireId }),
            prev.1.insert(c.type_id, (first + c.count) as WireId),
        )
    }
}

proof fn lemma_can_allocate_prefix(m: Map<TypeId, WireId>, cs: Seq<Count>, k: int)
    requires
        0 <= k <= cs.len(),
        can_allocate(m, cs),
    ensures
        can_allocate(m, cs.take(k)),
    decreases cs.len() - k,
{
    if k < cs.len() {
        assert(cs.take(k + 1).drop_last() =~= cs.take(k));
        if k + 1 == cs.len() {
            assert(cs.take(k + 1) =~= cs);
        } else {
            lemma_can_allocate_prefix(m, cs, k + 1);
        }
        assert(can_allocate(m, cs.take(k + 1)));
    } else {
        assert(cs.take(k) =~= cs);
    }
}

proof fn lemma_allocate_ranges_len(m: Map<TypeId, WireId>, cs: Seq<Count>)
    ensures
        allocate_ranges(m, cs).0.len() == cs.len(),
    decreases cs.len(),
{
    if cs.len() > 0 {
        lemma_allocate_ranges_len(m, cs.drop_last());
    }
}

fn allocate_all(cs: &Vec<Count>, next_available_id: &mut HashMap<TypeId, WireId>) -> (r: Result<Vec<WireRange>, BuildError>)
    ensures
        r is Ok <==> can_allocate(old(next_available_id)@, cs@),
        r matches Ok(v) ==> (v@, final(next_available_id)@) == allocate_ranges(old(next_available_id)@, cs@),
        r is Err ==> final(next_available_id)@ == old(next_available_id)@,
{
    let ghost m0 = next_available_id@;
    // Work on a copy, so that a refused request allocates nothing.
    let mut work = next_available_id.clone();
    let mut out: Vec<WireRange> = Vec::new();
    let mut i: usize = 0;
    assert(cs@.take(0) =~= Seq::<Count>::empty());
    while i < cs.len()
        invariant
            i <= cs.len(),
            next_available_id@ == m0,
            (out@, work@) == allocate_ranges(m0, cs@.take(i as int)),
            can_allocate(m0, cs@.take(i as int)),
        decreases cs.len() - i,
    {
        assert(cs@.take(i + 1).drop_last() =~= cs@.take(i as int));
        let c = cs[i];
        let first = get_next(&work, c.type_id);
        if c.count == 0 || first > u64::MAX - c.count {
            proof {
                if can_allocate(m0, cs@) {
                    lemma_can_allocate_prefix(m0, cs@, i + 1);
                }
            }
            return Err(BuildError::EmptyRange);
        }
        let range = multiple_alloc(c.type_id, &mut work, c.count);
        out.push(range);
        i += 1;
    }
    assert(cs@.take(cs.len() as int) =~= cs@);
    *next_available_id = work;
    Ok(out)
}

fn count_of_prefix(cs: &Vec<Count>, n: usize, t: TypeId) -> (r: u128)
    requires
        n <= cs@.len(),
    ensures
        r == count_of(cs@.take(n as int), t),
{
    let mut total: u128 = 0;
    let mut i: usize = 0;
    while i < n
        invariant
            i <= n <= cs.len(),
            total == count_of(cs@.take(i as int), t),
            count_of(cs@.take(i as int), t) <= i * 0xffff_ffff_ffff_ffff,
        decreases n - i,
    {
        assert(cs@.take(i + 1).drop_last() =~= cs@.take(i as int));
        if cs[i].type_id == t {
            total = total + cs[i].count as u128;
        }
        i += 1;
    }
    total
}

/// The counts that a per-type table holds, as a list.
pub open spec fn table_count(m: Map<TypeId, u64>, t: TypeId) -> nat {
    if m.contains_key(t) {
        m[t] as nat
    } else {
        0
    }
}

fn table_to_counts(m: &HashMap<TypeId, u64>) -> (r: Vec<Count>)
    ensures
        forall|t: TypeId| #[trigger] count_of(r@, t) == table_count(m@, t),
{
    let mut r: Vec<Count> = Vec::new();
    let mut t: u16 = 0;
    while t < 256
        invariant
            t <= 256,
            forall|u: TypeId|
                #[trigger] count_of(r@, u) == if (u as u16) < t {
                    table_count(m@, u)
                } else {
                    0
                },
        decreases 256 - t,
    {
        let ghost before = r@;
        let tt = t as u8;
        if let Some(v) = m.get(&tt) {
            r.push(Count::new(tt, *v));
            assert(r@.drop_last() =~= before);
        }
        proof {
            assert forall|u: TypeId|
                #[trigger] count_of(r@, u) == if (u as u16) < t + 1 {
                    table_count(m@, u)
                } else {
                    0
                } by {
                if r@.len() > before.len() {
                    assert(r@.drop_last() =~= before);
                    assert(count_of(r@, u) == count_of(before, u) + if r@.last().type_id == u {
                        r@.last().count as nat
                    } else {
                        0nat
                    });
                } else {
                    assert(r@ == before);
                }
                assert((u as u16) < t + 1 <==> (u as u16) < t || u == tt);
            }
        }
        t += 1;
    }
    r
}

fn table_add(m: &mut HashMap<TypeId, u64>, t: TypeId, n: u64)
    ensures
        forall|u: TypeId|
            #[trigger] table_count(final(m)@, u) == if u == t {
                if table_count(old(m)@, t) + n > u64::MAX {
                    u64::MAX as nat
                } else {
                    (table_count(old(m)@, t) + n) as nat
                }
            } else {
                table_count(old(m)@, u)
            },
{
    let current: u64 = match m.get(&t) {
        Some(v) => *v,
        None => 0,
    };
    let next = if current > u64::MAX - n {
        u64::MAX
    } else {
        current + n
    };
    m.insert(t, next);
}

pub open spec fn saturated(n: nat) -> nat {
    if n > u64::MAX {
        u64::MAX as nat
    } else {
        n
    }
}

/// Adds each count to the table, saturating.
fn table_add_all(m: &mut HashMap<TypeId, u64>, cs: &Vec<Count>)
    ensures
        forall|t: TypeId| #[trigger] table_count(final(m)@, t) == saturated(table_count(old(m)@, t) + count_of(cs@, t)),
{
    let ghost m0 = m@;
    let mut i: usize = 0;
    assert(cs@.take(0) =~= Seq::<Count>::empty());
    while i < cs.len()
        invariant
            i <= cs.len(),
            forall|t: TypeId| #[trigger] table_count(m@, t) == saturated(table_count(m0, t) + count_of(cs@.take(i as int), t)),
        decreases cs.len() - i,
    {
        assert(cs@.take(i + 1).drop_last() =~= cs@.take(i as int));
        table_add(m, cs[i].type_id, cs[i].count);
        i += 1;
    }
    assert(cs@.take(cs.len() as int) =~= cs@);
}

/// Local ids of a function's inputs: per type, after the outputs of that
/// type, in the order the input counts are declared.
pub open spec fn local_inputs(outs: Seq<Count>, ins: Seq<Count>) -> Seq<(TypeId, WireId)>
    decreases ins.len(),
{
    if ins.len() == 0 {
        Seq::empty()
    } else {
        let c = ins.last();
        let start = count_of(outs, c.type_id) + count_of(ins.drop_last(), c.type_id);
        local_inputs(outs, ins.drop_last()) + Seq::new(c.count as nat, |j: int| (c.type_id, (start + j) as WireId))
    }
}

/// The counts of outputs and inputs fit the id space of each type.
pub open spec fn counts_fit(outs: Seq<Count>, ins: Seq<Count>) -> bool {
    forall|t: TypeId| #[trigger] count_of(outs, t) + count_of(ins, t) <= u64::MAX
}

/// Whether a function's output and input counts fit the id space of each
/// type, which `GateBuilder::new_function_builder` requires.
pub fn counts_fit_check(output_count: &Vec<Count>, input_count: &Vec<Count>) -> (r: bool)
    ensures
        r == counts_fit(output_count@, input_count@),
{
    let mut t: u16 = 0;
    while t < 256
        invariant
            t <= 256,
            forall|u: TypeId| (u as u16) < t
                ==> #[trigger] count_of(output_count@, u) + count_of(input_count@, u) <= u64::MAX,
        decreases 256 - t,
    {
        let a = count_of_exec(output_count, t as u8);
        let b = count_of_exec(input_count, t as u8);
        if a > u64::MAX as u128 || b > u64::MAX as u128 - a {
            return false;
        }
        t += 1;
    }
    true
}

proof fn lemma_count_of_prefix(cs: Seq<Count>, k: int, t: TypeId)
    requires
        0 <= k <= cs.len(),
    ensures
        count_of(cs.take(k), t) <= count_of(cs, t),
    decreases cs.len() - k,
{
    if k < cs.len() {
        lemma_count_of_prefix(cs, k + 1, t);
        assert(cs.take(k + 1).drop_last() =~= cs.take(k));
    } else {
        assert(cs.take(k) =~= cs);
    }
}

pub open spec fn same_signatures(a: Seq<KnownFunction>, b: Seq<KnownFunction>) -> bool {
    a.len() == b.len() && forall|i: int|
        0 <= i < a.len() ==> (#[trigger] a[i]).name@ == b[i].name@ && a[i].counts.input_count@
            == b[i].counts.input_count@ && a[i].counts.output_count@ == b[i].counts.output_count@
            && a[i].counts.public_count@ == b[i].counts.public_count@ && a[i].counts.private_count@
            == b[i].counts.private_count@
}

fn copy_signatures(fs: &Vec<KnownFunction>) -> (r: Vec<KnownFunction>)
    ensures
        same_signatures(r@, fs@),
{
    let mut r: Vec<KnownFunction> = Vec::new();
    let mut i: usize = 0;
    while i < fs.len()
        invariant
            i <= fs.len(),
            same_signatures(r@, fs@.take(i as int)),
        decreases fs.len() - i,
    {
        r.push(KnownFunction { name: fs[i].name.clone(), counts: fs[i].counts.copy() });
        i += 1;
    }
    assert(fs@.take(fs.len() as int) =~= fs@);
    r
}

/// The signature that call sites of `name` are checked against.
pub open spec fn signature_of(fs: Seq<KnownFunction>, name: Seq<char>) -> FunctionCounts {
    fs[choose|i: int| 0 <= i < fs.len() && (#[trigger] fs[i]).name@ == name].counts
}

pub open spec fn distinct_names(fs: Seq<KnownFunction>) -> bool {
    forall|i: int, j: int| 0 <= i < j < fs.len() ==> (#[trigger] fs[i]).name@ != (#[trigger] fs[j]).name@
}

proof fn lemma_found_is_signature(fs: Seq<KnownFunction>, name: Seq<char>, i: int)
    requires
        distinct_names(fs),
        0 <= i < fs.len(),
        fs[i].name@ == name,
    ensures
        signature_of(fs, name) == fs[i].counts,
{
    let k = choose|k: int| 0 <= k < fs.len() && (#[trigger] fs[k]).name@ == name;
    if k != i {
        if k < i {
            assert(fs[k].name@ != fs[i].name@);
        } else {
            assert(fs[i].name@ != fs[k].name@);
        }
    }
}

pub fn create_plugin_function(
    function_name: String,
    output_count: Vec<Count>,
    input_count: Vec<Count>,
    plugin_body: PluginBody,
) -> (r: Result<Function, BuildError>)
    ensures
        function_name@.len() == 0 ==> r == Err::<Function, BuildError>(BuildError::EmptyFunctionName),
        function_name@.len() > 0 && plugin_body.name@.len() == 0 ==> r == Err::<Function, BuildError>(
            BuildError::EmptyPluginName,
        ),
        function_name@.len() > 0 && plugin_body.name@.len() > 0 && plugin_body.operation@.len() == 0 ==> r
            == Err::<Function, BuildError>(BuildError::EmptyPluginOperation),
        function_name@.len() > 0 && plugin_body.name@.len() > 0 && plugin_body.operation@.len() > 0 ==> (r matches Ok(
            f,
        ) && f.name == function_name && f.output_count == output_count && f.input_count == input_count
            && f.public_count@ == plugin_body.public_count@ && f.private_count@ == plugin_body.private_count@ && f.body
            == FunctionBody::PluginBody(plugin_body)),
{
    if function_name.as_str().is_empty() {
        return Err(BuildError::EmptyFunctionName);
    }
    if plugin_body.name.as_str().is_empty() {
        return Err(BuildError::EmptyPluginName);
    }
    if plugin_body.operation.as_str().is_empty() {
        return Err(BuildError::EmptyPluginOperation);
    }
    let public_count = copy_counts(&plugin_body.public_count);
    let private_count = copy_counts(&plugin_body.private_count);
    Ok(
        Function {
            name: function_name,
            output_count,
            input_count,
            public_count,
            private_count,
            body: FunctionBody::PluginBody(plugin_body),
        },
    )
}

fn contains_string(v: &Vec<String>, s: &String) -> (r: bool)
    ensures
        r == exists|i: int| 0 <= i < v@.len() && (#[trigger] v@[i])@ == s@,
{
    let mut i: usize = 0;
    while i < v.len()
        invariant
            i <= v.len(),
            forall|j: int| 0 <= j < i ==> (#[trigger] v@[j])@ != s@,
        decreases v.len() - i,
    {
        if v[i] == *s {
            return true;
        }
        i += 1;
    }
    false
}

fn contains_conversion(v: &Vec<Conversion>, c: Conversion) -> (r: bool)
    ensures
        r == v@.contains(c),
{
    let mut i: usize = 0;
    while i < v.len()
        invariant
            i <= v.len(),
            forall|j: int| 0 <= j < i ==> #[trigger] v@[j] != c,
        decreases v.len() - i,
    {
        if v[i] == c {
            assert(v@[i as int] == c);
            return true;
        }
        i += 1;
    }
    false
}

proof fn lemma_push_contains<A>(s: Seq<A>, x: A, d: A)
    ensures
        s.push(x).contains(d) <==> s.contains(d) || d == x,
{
    if s.push(x).contains(d) {
        let i = choose|i: int| 0 <= i < s.push(x).len() && s.push(x)[i] == d;
        if i < s.len() {
            assert(s[i] == d);
        }
    }
    if s.contains(d) {
        let i = choose|i: int| 0 <= i < s.len() && s[i] == d;
        assert(s.push(x)[i] == d);
    }
    if d == x {
        assert(s.push(x)[s.len() as int] == x);
    }
}

/// Allocates wire ids, builds gates, checks call sites against the declared
/// functions, and streams the result into a sink.
pub struct GateBuilder<S: Sink> {
    msg_build: MessageBuilder<S>,
    known_functions: Vec<KnownFunction>,
    known_plugins: Vec<String>,
    known_conversions: Vec<Conversion>,
    next_available_id: HashMap<TypeId, WireId>,
    emitted: Ghost<Seq<Gate>>,
    queued_public: Ghost<Seq<Seq<Seq<u8>>>>,
    queued_private: Ghost<Seq<Seq<Seq<u8>>>>,
    pushed_functions: Ghost<Seq<Function>>,
}

/// The queues with `v` appended to that of type `t`.
pub open spec fn queue_one(q: Seq<Seq<Seq<u8>>>, t: int, v: Seq<u8>) -> Seq<Seq<Seq<u8>>> {
    q.update(t, q[t].push(v))
}

/// The queues with the values given for each type appended, in order.
pub open spec fn queue_all(q: Seq<Seq<Seq<u8>>>, vals: Seq<Vec<Value>>) -> Seq<Seq<Seq<u8>>> {
    Seq::new(
        q.len(),
        |t: int|
            if t < vals.len() {
                q[t] + vals[t]@.map_values(|v: Value| v@)
            } else {
                q[t]
            },
    )
}

/// `f` with the given public and private input counts as its signature's.
pub open spec fn with_signature_counts(f: Function, public_count: Vec<Count>, private_count: Vec<Count>) -> Function {
    Function { public_count, private_count, ..f }
}

/// The conversions with `c` recorded, once.
pub open spec fn with_conversion(cs: Seq<Conversion>, c: Conversion) -> Seq<Conversion> {
    if cs.contains(c) {
        cs
    } else {
        cs.push(c)
    }
}

/// The conversions with each of `us` recorded in turn, once each.
pub open spec fn with_conversions(cs: Seq<Conversion>, us: Seq<Conversion>) -> Seq<Conversion>
    decreases us.len(),
{
    if us.len() == 0 {
        cs
    } else {
        with_conversion(with_conversions(cs, us.drop_last()), us.last())
    }
}

/// The plugin names with `n` recorded, once.
pub open spec fn with_plugin(ps: Seq<Seq<char>>, n: Seq<char>) -> Seq<Seq<char>> {
    if ps.contains(n) {
        ps
    } else {
        ps.push(n)
    }
}

impl<S: Sink> GateBuilder<S> {
    pub closed spec fn wf(&self) -> bool {
        &&& self.msg_build.wf()
        &&& distinct_names(self.known_functions@)
        &&& self.queued_public@.len() == self.msg_build.types@.len()
        &&& self.queued_private@.len() == self.msg_build.types@.len()
    }

    /// The characteristic of each type, as bytes.
    pub closed spec fn type_bytes(&self) -> Seq<Seq<u8>> {
        self.msg_build.types@.map_values(|v: Value| v@)
    }

    /// Every public input value queued so far, per type id, in order.
    pub closed spec fn public_values(&self) -> Seq<Seq<Seq<u8>>> {
        self.queued_public@
    }

    /// Every private input value queued so far, per type id, in order.
    pub closed spec fn private_values(&self) -> Seq<Seq<Seq<u8>>> {
        self.queued_private@
    }

    /// The plugin names recorded for the relation, each once.
    pub closed spec fn plugins(&self) -> Seq<Seq<char>> {
        self.known_plugins@.map_values(|s: String| s@)
    }

    /// Every function handed to the relation, in order.
    pub closed spec fn declared(&self) -> Seq<Function> {
        self.pushed_functions@
    }

    /// The types, functions, plugins and conversions are those of `o`.
    pub open spec fn same_declarations(&self, o: &Self) -> bool {
        &&& self.type_count() == o.type_count()
        &&& self.type_bytes() == o.type_bytes()
        &&& self.functions() == o.functions()
        &&& self.plugins() == o.plugins()
        &&& self.conversions() == o.conversions()
        &&& self.declared() == o.declared()
    }

    /// The queued input values are those of `o`.
    pub open spec fn same_values(&self, o: &Self) -> bool {
        self.public_values() == o.public_values() && self.private_values() == o.private_values()
    }

    pub closed spec fn type_count(&self) -> nat {
        self.msg_build.types@.len()
    }

    pub closed spec fn next_ids(&self) -> Map<TypeId, WireId> {
        self.next_available_id@
    }

    pub closed spec fn functions(&self) -> Seq<KnownFunction> {
        self.known_functions@
    }

    pub closed spec fn conversions(&self) -> Seq<Conversion> {
        self.known_conversions@
    }

    /// Every gate built so far, in order.
    pub closed spec fn emitted(&self) -> Seq<Gate> {
        self.emitted@
    }

    /// A builder over the given field types (one characteristic each).
    pub fn new(sink: S, types: &[Value]) -> (r: GateBuilder<S>)
        ensures
            r.wf(),
            r.type_count() == types@.len(),
            r.type_bytes() == types@.map_values(|v: Value| v@),
            r.next_ids() == Map::<TypeId, WireId>::empty(),
            r.functions().len() == 0,
            r.plugins().len() == 0,
            r.conversions().len() == 0,
            r.declared().len() == 0,
            r.emitted().len() == 0,
            r.public_values() == Seq::new(types@.len(), |i: int| Seq::<Seq<u8>>::empty()),
            r.private_values() == Seq::new(types@.len(), |i: int| Seq::<Seq<u8>>::empty()),
    {
        let mut owned: Vec<Value> = Vec::new();
        let mut i: usize = 0;
        while i < types.len()
            invariant
                i <= types@.len(),
                owned@.len() == i,
                forall|j: int| 0 <= j < i ==> (#[trigger] owned@[j])@ == types@[j]@,
            decreases types@.len() - i,
        {
            let v = types[i].clone();
            owned.push(v);
            i += 1;
        }
        let r = GateBuilder {
            msg_build: MessageBuilder::new(sink, &owned),
            known_functions: Vec::new(),
            known_plugins: Vec::new(),
            known_conversions: Vec::new(),
            next_available_id: HashMap::new(),
            emitted: Ghost(Seq::empty()),
            queued_public: Ghost(Seq::new(types@.len(), |i: int| Seq::<Seq<u8>>::empty())),
            queued_private: Ghost(Seq::new(types@.len(), |i: int| Seq::<Seq<u8>>::empty())),
            pushed_functions: Ghost(Seq::empty()),
        };
        assert(owned@.map_values(|v: Value| v@) =~= types@.map_values(|v: Value| v@));
        assert(r.type_bytes() == types@.map_values(|v: Value| v@));
        assert(r.plugins() =~= Seq::<Seq<char>>::empty());
        r
    }

    /// Builds a function body against this builder's declared functions.
    pub fn new_function_builder(&self, name: String, output_count: Vec<Count>, input_count: Vec<Count>) -> (r: FunctionBuilder)
        requires
            self.wf(),
            counts_fit(output_count@, input_count@),
        ensures
            r.wf(),
            r.name() == name,
            r.output_count() == output_count@,
            r.input_count() == input_count@,
            r.body().len() == 0,
            same_signatures(r.functions(), self.functions()),
            forall|t: TypeId| #[trigger] next_id(r.next_ids(), t) == count_of(output_count@, t) + count_of(input_count@, t),
            forall|t: TypeId| #[trigger] table_count(r.public_table(), t) == 0,
            forall|t: TypeId| #[trigger] table_count(r.private_table(), t) == 0,
            r.conversions().len() == 0,
    {
        let mut next_available_id: HashMap<TypeId, WireId> = HashMap::new();
        let mut t: u16 = 0;
        while t < 256
            invariant
                t <= 256,
                counts_fit(output_count@, input_count@),
                forall|u: TypeId|
                    #[trigger] next_id(next_available_id@, u) == if (u as u16) < t {
                        count_of(output_count@, u) + count_of(input_count@, u)
                    } else {
                        0
                    },
            decreases 256 - t,
        {
            let tt = t as u8;
            let total = count_of_exec(&output_count, tt) + count_of_exec(&input_count, tt);
            assert(total <= u64::MAX);
            let ghost m0 = next_available_id@;
            next_available_id.insert(tt, total as u64);
            proof {
                assert forall|u: TypeId|
                    #[trigger] next_id(next_available_id@, u) == if (u as u16) < t + 1 {
                        count_of(output_count@, u) + count_of(input_count@, u)
                    } else {
                        0
                    } by {
                    assert((u as u16) < t + 1 <==> (u as u16) < t || u == tt);
                    if u != tt {
                        assert(next_id(next_available_id@, u) == next_id(m0, u));
                    }
                }
            }
            t += 1;
        }
        let public_count: HashMap<TypeId, u64> = HashMap::new();
        let private_count: HashMap<TypeId, u64> = HashMap::new();
        let known_functions = copy_signatures(&self.known_functions);
        assert(distinct_names(known_functions@)) by {
            assert forall|i: int, j: int| 0 <= i < j < known_functions@.len() implies (#[trigger] known_functions@[i]).name@
                != (#[trigger] known_functions@[j]).name@ by {
                assert(known_functions@[i].name@ == self.known_functions@[i].name@);
                assert(known_functions@[j].name@ == self.known_functions@[j].name@);
            }
        }
        FunctionBuilder {
            name,
            output_count,
            input_count,
            gates: Vec::new(),
            public_count,
            private_count,
            known_functions,
            next_available_id,
            used_conversions: Vec::new(),
        }
    }

    fn queue_value(&mut self, type_id: TypeId, val: Value, public: bool)
        requires
            old(self).wf(),
            (type_id as nat) < old(self).type_count(),
        ensures
            final(self).wf(),
            final(self).same_declarations(old(self)),
            final(self).next_ids() == old(self).next_ids(),
            final(self).emitted() == old(self).emitted(),
            final(self).public_values() == if public {
                queue_one(old(self).public_values(), type_id as int, val@)
            } else {
                old(self).public_values()
            },
            final(self).private_values() == if public {
                old(self).private_values()
            } else {
                queue_one(old(self).private_values(), type_id as int, val@)
            },
    {
        let ghost v = val@;
        if public {
            let _ = self.msg_build.push_public_input_value(type_id, val);
            self.queued_public = Ghost(queue_one(self.queued_public@, type_id as int, v));
        } else {
            let _ = self.msg_build.push_private_input_value(type_id, val);
            self.queued_private = Ghost(queue_one(self.queued_private@, type_id as int, v));
        }
    }

    /// Queues a private input value for type `type_id`.
    pub fn push_private_input_value(&mut self, type_id: TypeId, val: Value) -> (r: Result<(), BuildError>)
        requires
            old(self).wf(),
        ensures
            final(self).wf(),
            final(self).same_declarations(old(self)),
            final(self).next_ids() == old(self).next_ids(),
            final(self).emitted() == old(self).emitted(),
            final(self).public_values() == old(self).public_values(),
            r is Ok <==> (type_id as nat) < old(self).type_count(),
            r is Err ==> r == Err::<(), BuildError>(BuildError::UndefinedType(type_id as u64))
                && final(self).private_values() == old(self).private_values(),
            r is Ok ==> final(self).private_values() == queue_one(old(self).private_values(), type_id as int, val@),
    {
        if (type_id as usize) < self.msg_build.types.len() {
            self.queue_value(type_id, val, false);
            Ok(())
        } else {
            Err(BuildError::UndefinedType(type_id as u64))
        }
    }

    /// Queues a public input value for type `type_id`.
    pub fn push_public_input_value(&mut self, type_id: TypeId, val: Value) -> (r: Result<(), BuildError>)
        requires
            old(self).wf(),
        ensures
            final(self).wf(),
            final(self).same_declarations(old(self)),
            final(self).next_ids() == old(self).next_ids(),
            final(self).emitted() == old(self).emitted(),
            final(self).private_values() == old(self).private_values(),
            r is Ok <==> (type_id as nat) < old(self).type_count(),
            r is Err ==> r == Err::<(), BuildError>(BuildError::UndefinedType(type_id as u64))
                && final(self).public_values() == old(self).public_values(),
            r is Ok ==> final(self).public_values() == queue_one(old(self).public_values(), type_id as int, val@),
    {
        if (type_id as usize) < self.msg_build.types.len() {
            self.queue_value(type_id, val, true);
            Ok(())
        } else {
            Err(BuildError::UndefinedType(type_id as u64))
        }
    }

    fn emit(&mut self, gate: Gate)
        requires
            old(self).wf(),
        ensures
            final(self).wf(),
            final(self).same_declarations(old(self)),
            final(self).same_values(old(self)),
            final(self).next_ids() == old(self).next_ids(),
            final(self).emitted() == old(self).emitted().push(gate),
    {
        let ghost g = gate;
        self.msg_build.push_gate(gate);
        self.emitted = Ghost(self.emitted@.push(g));
    }

    /// Allocates the output wire of `gate` (when it has one), queues the
    /// value of an input gate for its type, and builds it.
    pub fn create_gate(&mut self, gate: BuildGate) -> (r: Result<WireId, BuildError>)
        requires
            old(self).wf(),
        ensures
            final(self).wf(),
            final(self).same_declarations(old(self)),
            gate.type_of() as nat >= old(self).type_count() ==> r == Err::<WireId, BuildError>(
                BuildError::UndefinedType(gate.type_of() as u64),
            ),
            gate.type_of() as nat >= old(self).type_count() || gate.outputs()
                && next_id(old(self).next_ids(), gate.type_of()) == u64::MAX
                <==> r is Err,
            r is Err ==> final(self).next_ids() == old(self).next_ids() && final(self).emitted() == old(self).emitted()
                && final(self).same_values(old(self)),
            r matches Ok(out) ==> {
                &&& out == if gate.outputs() {
                    next_id(old(self).next_ids(), gate.type_of())
                } else {
                    NO_OUTPUT
                }
                &&& final(self).next_ids() == if gate.outputs() {
                    old(self).next_ids().insert(gate.type_of(), (out + 1) as WireId)
                } else {
                    old(self).next_ids()
                }
                &&& final(self).emitted() == old(self).emitted().push(gate.gate_with(out))
                &&& final(self).public_values() == match gate {
                    BuildGate::PublicInput(t, Some(v)) => queue_one(old(self).public_values(), t as int, v@),
                    _ => old(self).public_values(),
                }
                &&& final(self).private_values() == match gate {
                    BuildGate::PrivateInput(t, Some(v)) => queue_one(old(self).private_values(), t as int, v@),
                    _ => old(self).private_values(),
                }
            },
    {
        let type_id = gate.get_type_id();
        if type_id as usize >= self.msg_build.types.len() {
            return Err(BuildError::UndefinedType(type_id as u64));
        }
        let out_id = if gate.has_output() {
            if get_next(&self.next_available_id, type_id) == u64::MAX {
                return Err(BuildError::WiresExhausted(type_id));
            }
            allocate(type_id, &mut self.next_available_id)
        } else {
            NO_OUTPUT
        };
        let ghost g0 = gate;
        let built = match gate {
            BuildGate::PublicInput(t, Some(value)) => {
                self.queue_value(t, value, true);
                Gate::PublicInput(t, out_id)
            },
            BuildGate::PrivateInput(t, Some(value)) => {
                self.queue_value(t, value, false);
                Gate::PrivateInput(t, out_id)
            },
            other => other.with_output(out_id),
        };
        assert(built == g0.gate_with(out_id));
        self.emit(built);
        Ok(out_id)
    }

    /// Declares a function. Names are unique: a second function of the same
    /// name is refused and changes nothing. A plugin's name and the
    /// function's conversions are recorded once each, and the function goes
    /// to the relation.
    pub fn push_function(&mut self, function_with_infos: FunctionWithInfos) -> (r: Result<(), BuildError>)
        requires
            old(self).wf(),
        ensures
            final(self).wf(),
            final(self).type_count() == old(self).type_count(),
            final(self).type_bytes() == old(self).type_bytes(),
            final(self).next_ids() == old(self).next_ids(),
            final(self).emitted() == old(self).emitted(),
            final(self).same_values(old(self)),
            r is Err <==> is_known(old(self).functions(), function_with_infos.function.name@),
            r is Err ==> r == Err::<(), BuildError>(BuildError::DuplicateFunction) && final(self).same_declarations(
                old(self),
            ),
            r is Ok ==> {
                &&& final(self).functions().len() == old(self).functions().len() + 1
                &&& final(self).functions().drop_last() == old(self).functions()
                &&& final(self).functions().last().name@ == function_with_infos.function.name@
                &&& final(self).functions().last().counts.input_count@ == function_with_infos.function.input_count@
                &&& final(self).functions().last().counts.output_count@ == function_with_infos.function.output_count@
                &&& final(self).functions().last().counts.public_count@ == function_with_infos.public_count@
                &&& final(self).functions().last().counts.private_count@ == function_with_infos.private_count@
                &&& final(self).plugins() == match function_with_infos.function.body {
                    FunctionBody::PluginBody(pb) => with_plugin(old(self).plugins(), pb.name@),
                    FunctionBody::Gates(_) => old(self).plugins(),
                }
                &&& final(self).conversions() == with_conversions(
                    old(self).conversions(),
                    function_with_infos.used_conversions@,
                )
                &&& final(self).declared() == old(self).declared().push(
                    with_signature_counts(
                        function_with_infos.function,
                        function_with_infos.public_count,
                        function_with_infos.private_count,
                    ),
                )
            },
    {
        let ghost f0 = with_signature_counts(
            function_with_infos.function,
            function_with_infos.public_count,
            function_with_infos.private_count,
        );
        let FunctionWithInfos { function, public_count, private_count, used_conversions } = function_with_infos;
        if let Some(_) = find_function(&self.known_functions, &function.name) {
            return Err(BuildError::DuplicateFunction);
        }
        let counts = FunctionCounts {
            input_count: copy_counts(&function.input_count),
            output_count: copy_counts(&function.output_count),
            public_count: copy_counts(&public_count),
            private_count: copy_counts(&private_count),
        };
        let Function { name, output_count, input_count, public_count: _, private_count: _, body } = function;
        let function = Function { name, output_count, input_count, public_count, private_count, body };
        let ghost before = self.known_functions@;
        self.known_functions.push(KnownFunction { name: function.name.clone(), counts });
        proof {
            assert(self.known_functions@.drop_last() =~= before);
            assert forall|i: int, j: int| 0 <= i < j < self.known_functions@.len() implies (#[trigger] self.known_functions@[i]).name@
                != (#[trigger] self.known_functions@[j]).name@ by {
                if j == self.known_functions@.len() - 1 {
                    assert(self.known_functions@[i] == before[i]);
                }
            }
        }
        if let FunctionBody::PluginBody(plugin_body) = &function.body {
            let ghost p0 = self.known_plugins@;
            if !contains_string(&self.known_plugins, &plugin_body.name) {
                self.known_plugins.push(plugin_body.name.clone());
                self.msg_build.push_plugin(plugin_body.name.clone());
                assert(self.plugins() =~= p0.map_values(|s: String| s@).push(plugin_body.name@));
            } else {
                proof {
                    let k = choose|k: int| 0 <= k < p0.len() && (#[trigger] p0[k])@ == plugin_body.name@;
                    assert(p0.map_values(|s: String| s@)[k] == plugin_body.name@);
                }
            }
        }
        let ghost conv0 = self.known_conversions@;
        let ghost after = self.known_functions@;
        let ghost plugins_after = self.plugins();
        let mut i: usize = 0;
        assert(used_conversions@.take(0) =~= Seq::<Conversion>::empty());
        while i < used_conversions.len()
            invariant
                i <= used_conversions.len(),
                self.wf(),
                self.known_conversions@ == with_conversions(conv0, used_conversions@.take(i as int)),
                self.known_functions@ == after,
                self.plugins() == plugins_after,
                self.msg_build.types == old(self).msg_build.types,
                self.next_available_id@ == old(self).next_available_id@,
                self.emitted@ == old(self).emitted@,
                self.queued_public@ == old(self).queued_public@,
                self.queued_private@ == old(self).queued_private@,
                self.pushed_functions@ == old(self).pushed_functions@,
            decreases used_conversions.len() - i,
        {
            let c = used_conversions[i];
            assert(used_conversions@.take(i + 1).drop_last() =~= used_conversions@.take(i as int));
            if !contains_conversion(&self.known_conversions, c) {
                self.known_conversions.push(c);
                self.msg_build.push_conversion(c);
            }
            i += 1;
        }
        assert(used_conversions@.take(used_conversions.len() as int) =~= used_conversions@);
        self.msg_build.push_function(function);
        self.pushed_functions = Ghost(self.pushed_functions@.push(f0));
        Ok(())
    }

    /// Declares a plugin function; its body must be a plugin, whose input
    /// consumption becomes the function's.
    pub fn push_plugin(&mut self, function: Function) -> (r: Result<(), BuildError>)
        requires
            old(self).wf(),
        ensures
            final(self).wf(),
            final(self).next_ids() == old(self).next_ids(),
            final(self).emitted() == old(self).emitted(),
            final(self).same_values(old(self)),
            !(function.body is PluginBody) ==> r == Err::<(), BuildError>(BuildError::NotAPlugin),
            function.body is PluginBody ==> (r is Err <==> is_known(old(self).functions(), function.name@)),
            r is Err ==> final(self).same_declarations(old(self)),
            r is Ok ==> (function.body matches FunctionBody::PluginBody(pb) && {
                &&& final(self).functions().len() == old(self).functions().len() + 1
                &&& final(self).functions().drop_last() == old(self).functions()
                &&& final(self).functions().last().name@ == function.name@
                &&& final(self).functions().last().counts.input_count@ == function.input_count@
                &&& final(self).functions().last().counts.output_count@ == function.output_count@
                &&& final(self).functions().last().counts.public_count@ == pb.public_count@
                &&& final(self).functions().last().counts.private_count@ == pb.private_count@
                &&& final(self).plugins() == with_plugin(old(self).plugins(), pb.name@)
                &&& final(self).conversions() == old(self).conversions()
                &&& final(self).declared().drop_last() == old(self).declared()
                &&& final(self).declared().len() == old(self).declared().len() + 1
                &&& final(self).declared().last().name == function.name
                &&& final(self).declared().last().output_count == function.output_count
                &&& final(self).declared().last().input_count == function.input_count
                &&& final(self).declared().last().public_count@ == pb.public_count@
                &&& final(self).declared().last().private_count@ == pb.private_count@
                &&& final(self).declared().last().body == function.body
            }),
    {
        let (public_count, private_count) = match &function.body {
            FunctionBody::PluginBody(plugin_body) => (copy_counts(&plugin_body.public_count), copy_counts(&plugin_body.private_count)),
            FunctionBody::Gates(_) => {
                return Err(BuildError::NotAPlugin);
            },
        };
        let used: Vec<Conversion> = Vec::new();
        proof {
            assert(with_conversions(self.known_conversions@, used@) == self.known_conversions@);
        }
        self.push_function(FunctionWithInfos { function, public_count, private_count, used_conversions: used })
    }

    fn push_values(&mut self, values: Vec<Vec<Value>>, public: bool)
        requires
            old(self).wf(),
            forall|i: int| 0 <= i < values@.len() && (#[trigger] values@[i])@.len() > 0
                ==> i < old(self).type_count() && i < 256,
        ensures
            final(self).wf(),
            final(self).same_declarations(old(self)),
            final(self).next_ids() == old(self).next_ids(),
            final(self).emitted() == old(self).emitted(),
            final(self).public_values() == if public {
                queue_all(old(self).public_values(), values@)
            } else {
                old(self).public_values()
            },
            final(self).private_values() == if public {
                old(self).private_values()
            } else {
                queue_all(old(self).private_values(), values@)
            },
    {
        let ghost vals0 = values@;
        let ghost q0 = if public { self.public_values() } else { self.private_values() };
        let ghost other0 = if public { self.private_values() } else { self.public_values() };
        let mut values = values;
        let n = values.len();
        let mut i: usize = 0;
        assert(queue_all(q0, vals0.take(0)) =~= q0);
        while i < n
            invariant
                i <= n == values@.len() == vals0.len(),
                self.wf(),
                forall|k: int| 0 <= k < vals0.len() && (#[trigger] vals0[k])@.len() > 0
                    ==> k < self.type_count() && k < 256,
                forall|k: int| i <= k < n ==> #[trigger] values@[k] == vals0[k],
                q0.len() == self.type_count(),
                self.same_declarations(old(self)),
                self.next_ids() == old(self).next_ids(),
                self.emitted() == old(self).emitted(),
                (if public { self.public_values() } else { self.private_values() }) == queue_all(q0, vals0.take(i as int)),
                (if public { self.private_values() } else { self.public_values() }) == other0,
            decreases n - i,
        {
            let mut list: Vec<Value> = Vec::new();
            values.set_and_swap(i, &mut list);
            let ghost list0 = list@;
            let ghost base = queue_all(q0, vals0.take(i as int));
            let m = list.len();
            let mut j: usize = 0;
            while j < m
                invariant
                    j <= m == list@.len() == list0.len(),
                    list0 == vals0[i as int]@,
                    forall|k: int| j <= k < m ==> #[trigger] list@[k] == list0[k],
                    m > 0 ==> i < self.type_count() && i < 256,
                    q0.len() == self.type_count(),
                    base.len() == q0.len(),
                    self.wf(),
                    self.same_declarations(old(self)),
                    self.next_ids() == old(self).next_ids(),
                    self.emitted() == old(self).emitted(),
                    m > 0 ==> (if public { self.public_values() } else { self.private_values() }) == base.update(
                        i as int,
                        base[i as int] + list0.take(j as int).map_values(|v: Value| v@),
                    ),
                    m == 0 ==> (if public { self.public_values() } else { self.private_values() }) == base,
                    (if public { self.private_values() } else { self.public_values() }) == other0,
                decreases m - j,
            {
                let mut v: Value = Vec::new();
                list.set_and_swap(j, &mut v);
                proof {
                    assert(list0.take(j + 1).map_values(|v: Value| v@) =~= list0.take(j as int).map_values(|v: Value| v@).push(list0[j as int]@));
                    if j == 0 {
                        assert(list0.take(0).map_values(|v: Value| v@) =~= Seq::<Seq<u8>>::empty());
                        assert(base[i as int] + Seq::<Seq<u8>>::empty() =~= base[i as int]);
                        assert(base.update(i as int, base[i as int]) =~= base);
                    }
                }
                self.queue_value(i as u8, v, public);
                proof {
                    let cur = if public { self.public_values() } else { self.private_values() };
                    assert(cur =~= base.update(i as int, base[i as int] + list0.take(j + 1).map_values(|v: Value| v@)));
                }
                j += 1;
            }
            proof {
                let cur = if public { self.public_values() } else { self.private_values() };
                assert(vals0.take(i + 1).drop_last() =~= vals0.take(i as int));
                assert(list0.take(m as int) =~= list0);
                assert(cur =~= queue_all(q0, vals0.take(i + 1)));
            }
            i += 1;
        }
        assert(vals0.take(n as int) =~= vals0);
    }

    /// Builds a call or a conversion. A call is checked against the declared
    /// signature, its input values are queued per type, in order, its output
    /// ranges allocated, and it is built; a refused call changes nothing. A
    /// conversion is recorded once (again is no error), then refused if it
    /// is given input values; else its output range is allocated and it is
    /// built.
    pub fn create_complex_gate(
        &mut self,
        gate: BuildComplexGate,
        public_inputs: Vec<Vec<Value>>,
        private_inputs: Vec<Vec<Value>>,
    ) -> (r: Result<Vec<WireRange>, BuildError>)
        requires
            old(self).wf(),
        ensures
            final(self).wf(),
            final(self).type_count() == old(self).type_count(),
            final(self).type_bytes() == old(self).type_bytes(),
            final(self).functions() == old(self).functions(),
            final(self).plugins() == old(self).plugins(),
            final(self).declared() == old(self).declared(),
            r is Err ==> final(self).next_ids() == old(self).next_ids() && final(self).emitted() == old(self).emitted()
                && final(self).same_values(old(self)),
            gate matches BuildComplexGate::Call(name, in_ids) ==> {
                let sig = signature_of(old(self).functions(), name@);
                &&& final(self).conversions() == old(self).conversions()
                &&& !is_known(old(self).functions(), name@)
                    ==> r == Err::<Vec<WireRange>, BuildError>(BuildError::UnknownFunction)
                &&& is_known(old(self).functions(), name@) && !ranges_match(in_ids@, sig.input_count@)
                    ==> r == Err::<Vec<WireRange>, BuildError>(BuildError::InputCountMismatch)
                &&& is_known(old(self).functions(), name@) && ranges_match(in_ids@, sig.input_count@)
                    && !values_match(sig.public_count@, public_inputs@)
                    ==> r == Err::<Vec<WireRange>, BuildError>(BuildError::PublicCountMismatch)
                &&& is_known(old(self).functions(), name@) && ranges_match(in_ids@, sig.input_count@)
                    && values_match(sig.public_count@, public_inputs@)
                    && !values_match(sig.private_count@, private_inputs@)
                        ==> r == Err::<Vec<WireRange>, BuildError>(BuildError::PrivateCountMismatch)
                &&& is_known(old(self).functions(), name@) && ranges_match(in_ids@, sig.input_count@)
                    && values_match(sig.public_count@, public_inputs@)
                    && values_match(sig.private_count@, private_inputs@) ==> (r is Ok
                        <==> values_declared(public_inputs@, old(self).type_count())
                    && values_declared(private_inputs@, old(self).type_count())
                        && can_allocate(old(self).next_ids(), sig.output_count@))
                &&& r matches Ok(v) ==> {
                    &&& is_known(old(self).functions(), name@) && ranges_match(in_ids@, sig.input_count@)
                    &&& values_match(sig.public_count@, public_inputs@)
                        && values_match(sig.private_count@, private_inputs@)
                    &&& (v@, final(self).next_ids()) == allocate_ranges(old(self).next_ids(), sig.output_count@)
                    &&& final(self).public_values() == queue_all(old(self).public_values(), public_inputs@)
                    &&& final(self).private_values() == queue_all(old(self).private_values(), private_inputs@)
                    &&& final(self).emitted().drop_last() == old(self).emitted()
                    &&& final(self).emitted().len() == old(self).emitted().len() + 1
                    &&& final(self).emitted().last() matches Gate::Call(n2, o2, i2) && n2 == name
                        && o2@ == typed_ranges(v@, sig.output_count@)
                        && i2@ == typed_ranges(in_ids@, sig.input_count@)
                }
            },
            gate matches BuildComplexGate::Convert(out_t, out_n, in_t, first, last) ==> {
                &&& final(self).same_values(old(self))
                &&& (first > last || last - first == u64::MAX)
                    ==> r == Err::<Vec<WireRange>, BuildError>(BuildError::EmptyRange)
                    && final(self).conversions() == old(self).conversions()
                &&& first <= last && last - first < u64::MAX ==> final(self).conversions() == with_conversion(
                    old(self).conversions(),
                    conversion_of(out_t, out_n, in_t, first, last),
                )
                &&& first <= last && last - first < u64::MAX && (public_inputs@.len() > 0
                    || private_inputs@.len() > 0)
                    ==> r == Err::<Vec<WireRange>, BuildError>(BuildError::ConvertWithInputs)
                &&& first <= last && last - first < u64::MAX && public_inputs@.len() == 0
                    && private_inputs@.len() == 0 ==> (r is Ok <==> out_n > 0
                    && next_id(old(self).next_ids(), out_t) + out_n <= u64::MAX)
                &&& r matches Ok(v) ==> {
                    &&& v@.len() == 1 && first <= last
                    &&& v@[0].first_id == next_id(old(self).next_ids(), out_t)
                    &&& v@[0].last_id == v@[0].first_id + out_n - 1
                    &&& final(self).next_ids() == old(self).next_ids().insert(out_t, (v@[0].first_id + out_n) as WireId)
                    &&& final(self).emitted().drop_last() == old(self).emitted()
                    &&& final(self).emitted().len() == old(self).emitted().len() + 1
                    &&& final(self).emitted().last() matches Gate::Convert(o2, i2)
                        && o2@ == seq![WireListElement::WireRange(out_t, v@[0].first_id, v@[0].last_id)]
                        && i2@ == seq![WireListElement::WireRange(in_t, first, last)]
                }
            },
    {
        match gate {
            BuildComplexGate::Call(name, in_ids) => {
                let idx = match find_function(&self.known_functions, &name) {
                    Some(i) => i,
                    None => {
                        return Err(BuildError::UnknownFunction);
                    },
                };
                proof {
                    lemma_found_is_signature(self.known_functions@, name@, idx as int);
                }
                let counts = self.known_functions[idx].counts.copy();
                if !ranges_match_exec(&in_ids, &counts.input_count) {
                    return Err(BuildError::InputCountMismatch);
                }
                if !values_match_exec(&counts.public_count, &public_inputs) {
                    return Err(BuildError::PublicCountMismatch);
                }
                if !values_match_exec(&counts.private_count, &private_inputs) {
                    return Err(BuildError::PrivateCountMismatch);
                }
                if let Some(i) = self.first_undeclared(&public_inputs) {
                    return Err(BuildError::UndefinedType(i as u64));
                }
                if let Some(i) = self.first_undeclared(&private_inputs) {
                    return Err(BuildError::UndefinedType(i as u64));
                }
                let out_ids = match allocate_all(&counts.output_count, &mut self.next_available_id) {
                    Ok(v) => v,
                    Err(e) => {
                        return Err(e);
                    },
                };
                self.push_values(public_inputs, true);
                self.push_values(private_inputs, false);
                proof {
                    lemma_allocate_ranges_len(old(self).next_available_id@, counts.output_count@);
                }
                let outs = typed_ranges_exec(&out_ids, &counts.output_count);
                let ins = typed_ranges_exec(&in_ids, &counts.input_count);
                self.emit(Gate::Call(name, outs, ins));
                Ok(out_ids)
            },
            BuildComplexGate::Convert(out_t, out_n, in_t, first, last) => {
                if first > last || last - first == u64::MAX {
                    return Err(BuildError::EmptyRange);
                }
                // The conversion is declared even when the request is refused.
                self.record_conversion(Conversion::new(Count::new(out_t, out_n), Count::new(in_t, last - first + 1)));
                if public_inputs.len() > 0 || private_inputs.len() > 0 {
                    return Err(BuildError::ConvertWithInputs);
                }
                let counts = vec![Count::new(out_t, out_n)];
                proof {
                    assert(counts@.drop_last() =~= Seq::<Count>::empty());
                    assert(counts@.last() == Count { type_id: out_t, count: out_n });
                    assert(can_allocate(self.next_available_id@, Seq::<Count>::empty()));
                    assert(allocate_ranges(self.next_available_id@, Seq::<Count>::empty()).1 == self.next_available_id@);
                    assert(can_allocate(self.next_available_id@, counts@) <==> out_n > 0
                        && next_id(self.next_available_id@, out_t)
                        + out_n <= u64::MAX);
                }
                let out_ids = match allocate_all(&counts, &mut self.next_available_id) {
                    Ok(v) => v,
                    Err(e) => {
                        return Err(e);
                    },
                };
                let range = out_ids[0];
                let outs = vec![WireListElement::WireRange(out_t, range.first_id, range.last_id)];
                let ins = vec![WireListElement::WireRange(in_t, first, last)];
                assert(outs@ =~= seq![WireListElement::WireRange(out_t, range.first_id, range.last_id)]);
                assert(ins@ =~= seq![WireListElement::WireRange(in_t, first, last)]);
                self.emit(Gate::Convert(outs, ins));
                Ok(out_ids)
            },
        }
    }

    fn record_conversion(&mut self, c: Conversion)
        requires
            old(self).wf(),
        ensures
            final(self).wf(),
            final(self).type_count() == old(self).type_count(),
            final(self).type_bytes() == old(self).type_bytes(),
            final(self).functions() == old(self).functions(),
            final(self).plugins() == old(self).plugins(),
            final(self).declared() == old(self).declared(),
            final(self).conversions() == with_conversion(old(self).conversions(), c),
            final(self).same_values(old(self)),
            final(self).next_ids() == old(self).next_ids(),
            final(self).emitted() == old(self).emitted(),
    {
        if !contains_conversion(&self.known_conversions, c) {
            self.known_conversions.push(c);
            self.msg_build.push_conversion(c);
        }
    }

    /// The first type id that is given values but is not one of the
    /// builder's types.
    fn first_undeclared(&self, values: &Vec<Vec<Value>>) -> (r: Option<usize>)
        ensures
            r is None <==> values_declared(values@, self.type_count()),
    {
        let mut i: usize = 0;
        while i < values.len()
            invariant
                i <= values.len(),
                forall|k: int| 0 <= k < i && (#[trigger] values@[k])@.len() > 0 ==> k < self.type_count(),
            decreases values.len() - i,
        {
            if values[i].len() > 0 && i >= self.msg_build.types.len() {
                return Some(i);
            }
            i += 1;
        }
        None
    }

    /// Ends the build: flushes what is buffered and returns the sink.
    pub fn finish(self) -> S
        requires
            self.wf(),
    {
        self.msg_build.finish()
    }
}

/// What a builder of gates offers: fresh output wires per gate, and checked
/// calls and conversions.
pub trait GateBuilderT {
    /// The builder's own invariant.
    spec fn builder_wf(&self) -> bool;

    /// Allocates a new wire id for the output and creates a new gate;
    /// returns the newly allocated wire id.
    fn create_gate(&mut self, gate: BuildGate) -> (r: Result<WireId, BuildError>)
        requires
            old(self).builder_wf(),
        ensures
            final(self).builder_wf(),
    ;

    /// Pushes the input values, allocates the output ranges, and creates a
    /// new gate; returns the newly allocated ranges.
    fn create_complex_gate(
        &mut self,
        gate: BuildComplexGate,
        public_inputs: Vec<Vec<Value>>,
        private_inputs: Vec<Vec<Value>>,
    ) -> (r: Result<Vec<WireRange>, BuildError>)
        requires
            old(self).builder_wf(),
        ensures
            final(self).builder_wf(),
    ;
}

impl<S: Sink> GateBuilderT for GateBuilder<S> {
    open spec fn builder_wf(&self) -> bool {
        self.wf()
    }

    fn create_gate(&mut self, gate: BuildGate) -> (r: Result<WireId, BuildError>) {
        GateBuilder::<S>::create_gate(self, gate)
    }

    fn create_complex_gate(
        &mut self,
        gate: BuildComplexGate,
        public_inputs: Vec<Vec<Value>>,
        private_inputs: Vec<Vec<Value>>,
    ) -> (r: Result<Vec<WireRange>, BuildError>) {
        GateBuilder::<S>::create_complex_gate(self, gate, public_inputs, private_inputs)
    }
}

/// Builds a function body with local wire numbering: outputs first, then
/// inputs, then the body's own wires, per type.
pub struct FunctionBuilder {
    name: String,
    output_count: Vec<Count>,
    input_count: Vec<Count>,
    gates: Vec<Gate>,
    public_count: HashMap<TypeId, u64>,
    private_count: HashMap<TypeId, u64>,
    known_functions: Vec<KnownFunction>,
    next_available_id: HashMap<TypeId, WireId>,
    used_conversions: Vec<Conversion>,
}

impl FunctionBuilder {
    pub closed spec fn wf(&self) -> bool {
        counts_fit(self.output_count@, self.input_count@) && distinct_names(self.known_functions@)
    }

    pub closed spec fn name(&self) -> String {
        self.name
    }

    pub closed spec fn output_count(&self) -> Seq<Count> {
        self.output_count@
    }

    pub closed spec fn input_count(&self) -> Seq<Count> {
        self.input_count@
    }

    /// The gates of the body so far.
    pub closed spec fn body(&self) -> Seq<Gate> {
        self.gates@
    }

    pub closed spec fn functions(&self) -> Seq<KnownFunction> {
        self.known_functions@
    }

    pub closed spec fn next_ids(&self) -> Map<TypeId, WireId> {
        self.next_available_id@
    }

    pub closed spec fn public_table(&self) -> Map<TypeId, u64> {
        self.public_count@
    }

    pub closed spec fn private_table(&self) -> Map<TypeId, u64> {
        self.private_count@
    }

    pub closed spec fn conversions(&self) -> Seq<Conversion> {
        self.used_conversions@
    }

    /// The next local id that the body would get for type `type_id`.
    pub fn next_wire_id(&self, type_id: TypeId) -> (r: WireId)
        ensures
            r == next_id(self.next_ids(), type_id),
    {
        get_next(&self.next_available_id, type_id)
    }

    /// The local ids of the function's inputs, ranges expanded.
    pub fn input_wires(&self) -> (r: Vec<(TypeId, WireId)>)
        requires
            self.wf(),
        ensures
            r@ == local_inputs(self.output_count(), self.input_count()),
    {
        let ins = &self.input_count;
        let mut result: Vec<(TypeId, WireId)> = Vec::new();
        let mut k: usize = 0;
        while k < ins.len()
            invariant
                k <= ins.len(),
                counts_fit(self.output_count@, ins@),
                result@ == local_inputs(self.output_count@, ins@.take(k as int)),
            decreases ins.len() - k,
        {
            let c = ins[k];
            let t = c.type_id;
            proof {
                assert(ins@.take(k + 1).drop_last() =~= ins@.take(k as int));
                assert(ins@.take(k + 1).last() == c);
                lemma_count_of_prefix(ins@, k + 1, t);
                assert(count_of(ins@.take(k + 1), t) == count_of(ins@.take(k as int), t) + c.count);
            }
            let start = count_of_exec(&self.output_count, t) + count_of_prefix(ins, k, t);
            assert(start + c.count <= u64::MAX);
            let start = start as u64;
            let ghost base = result@;
            let mut j: u64 = 0;
            while j < c.count
                invariant
                    j <= c.count,
                    start + c.count <= u64::MAX,
                    result@ =~= base + Seq::new(j as nat, |x: int| (t, (start + x) as WireId)),
                decreases c.count - j,
            {
                result.push((t, start + j));
                j += 1;
            }
            k += 1;
        }
        assert(ins@.take(ins.len() as int) =~= ins@);
        result
    }

    /// Allocates the output wire of `gate` (when it has one), counts the
    /// input values that the body consumes, and appends it to the body.
    pub fn create_gate(&mut self, gate: BuildGate) -> (r: WireId)
        requires
            gate.outputs() ==> next_id(old(self).next_ids(), gate.type_of()) < u64::MAX,
        ensures
            final(self).wf() == old(self).wf(),
            final(self).name() == old(self).name(),
            final(self).output_count() == old(self).output_count(),
            final(self).input_count() == old(self).input_count(),
            final(self).functions() == old(self).functions(),
            final(self).conversions() == old(self).conversions(),
            r == if gate.outputs() {
                next_id(old(self).next_ids(), gate.type_of())
            } else {
                NO_OUTPUT
            },
            final(self).next_ids() == if gate.outputs() {
                old(self).next_ids().insert(gate.type_of(), (r + 1) as WireId)
            } else {
                old(self).next_ids()
            },
            final(self).body() == old(self).body().push(gate.gate_with(r)),
            forall|t: TypeId| #[trigger] table_count(final(self).public_table(), t) == if gate is PublicInput
                && gate.type_of() == t {
                if table_count(old(self).public_table(), t) + 1 > u64::MAX { u64::MAX as nat } else { table_count(old(self).public_table(), t) + 1 }
            } else {
                table_count(old(self).public_table(), t)
            },
            forall|t: TypeId| #[trigger] table_count(final(self).private_table(), t) == if gate is PrivateInput
                && gate.type_of() == t {
                if table_count(old(self).private_table(), t) + 1 > u64::MAX { u64::MAX as nat } else { table_count(old(self).private_table(), t) + 1 }
            } else {
                table_count(old(self).private_table(), t)
            },
    {
        let type_id = gate.get_type_id();
        let out_id = if gate.has_output() {
            allocate(type_id, &mut self.next_available_id)
        } else {
            NO_OUTPUT
        };
        match &gate {
            BuildGate::PublicInput(t, _) => table_add(&mut self.public_count, *t, 1),
            BuildGate::PrivateInput(t, _) => table_add(&mut self.private_count, *t, 1),
            _ => {},
        }
        self.gates.push(gate.with_output(out_id));
        out_id
    }

    /// Builds a call or a conversion inside the body: checks it against the
    /// declared signature, adds the callee's input consumption to the body's,
    /// allocates the output ranges, and appends it. A refused request
    /// changes nothing.
    pub fn create_complex_gate(&mut self, gate: BuildComplexGate) -> (r: Result<Vec<WireRange>, BuildError>)
        requires
            old(self).wf(),
        ensures
            final(self).wf() == old(self).wf(),
            final(self).name() == old(self).name(),
            final(self).output_count() == old(self).output_count(),
            final(self).input_count() == old(self).input_count(),
            final(self).functions() == old(self).functions(),
            r is Err ==> {
                &&& final(self).next_ids() == old(self).next_ids()
                &&& final(self).body() == old(self).body()
                &&& final(self).public_table() == old(self).public_table()
                &&& final(self).private_table() == old(self).private_table()
                &&& final(self).conversions() == old(self).conversions()
            },
            gate matches BuildComplexGate::Call(name, in_ids) ==> {
                let sig = signature_of(old(self).functions(), name@);
                &&& final(self).conversions() == old(self).conversions()
                &&& !is_known(old(self).functions(), name@)
                    ==> r == Err::<Vec<WireRange>, BuildError>(BuildError::UnknownFunction)
                &&& is_known(old(self).functions(), name@) && !ranges_match(in_ids@, sig.input_count@)
                    ==> r == Err::<Vec<WireRange>, BuildError>(BuildError::InputCountMismatch)
                &&& is_known(old(self).functions(), name@) && ranges_match(in_ids@, sig.input_count@)
                    ==> (r is Ok <==> can_allocate(old(self).next_ids(), sig.output_count@))
                &&& r matches Ok(v) ==> {
                    &&& is_known(old(self).functions(), name@) && ranges_match(in_ids@, sig.input_count@)
                    &&& (v@, final(self).next_ids()) == allocate_ranges(old(self).next_ids(), sig.output_count@)
                    &&& forall|t: TypeId| #[trigger] table_count(final(self).public_table(), t) == saturated(table_count(old(self).public_table(), t) + count_of(sig.public_count@, t))
                    &&& forall|t: TypeId| #[trigger] table_count(final(self).private_table(), t) == saturated(table_count(old(self).private_table(), t) + count_of(sig.private_count@, t))
                    &&& final(self).body().drop_last() == old(self).body()
                    &&& final(self).body().len() == old(self).body().len() + 1
                    &&& final(self).body().last() matches Gate::Call(n2, o2, i2) && n2 == name
                        && o2@ == typed_ranges(v@, sig.output_count@)
                        && i2@ == typed_ranges(in_ids@, sig.input_count@)
                }
            },
            gate matches BuildComplexGate::Convert(out_t, out_n, in_t, first, last) ==> {
                &&& (first > last || last - first == u64::MAX)
                    ==> r == Err::<Vec<WireRange>, BuildError>(BuildError::EmptyRange)
                &&& first <= last && last - first < u64::MAX ==> (r is Ok <==> out_n > 0
                    && next_id(old(self).next_ids(), out_t) + out_n <= u64::MAX)
                &&& r matches Ok(v) ==> {
                    &&& v@.len() == 1 && first <= last
                    &&& v@[0].first_id == next_id(old(self).next_ids(), out_t)
                    &&& v@[0].last_id == v@[0].first_id + out_n - 1
                    &&& final(self).conversions() == with_conversion(
                        old(self).conversions(),
                        conversion_of(out_t, out_n, in_t, first, last),
                    )
                    &&& final(self).public_table() == old(self).public_table()
                    &&& final(self).private_table() == old(self).private_table()
                    &&& final(self).body().drop_last() == old(self).body()
                    &&& final(self).body().len() == old(self).body().len() + 1
                    &&& final(self).body().last() matches Gate::Convert(o2, i2)
                        && o2@ == seq![WireListElement::WireRange(out_t, v@[0].first_id, v@[0].last_id)]
                        && i2@ == seq![WireListElement::WireRange(in_t, first, last)]
                }
            },
    {
        match gate {
            BuildComplexGate::Call(name, in_ids) => {
                let idx = match find_function(&self.known_functions, &name) {
                    Some(i) => i,
                    None => {
                        return Err(BuildError::UnknownFunction);
                    },
                };
                proof {
                    lemma_found_is_signature(self.known_functions@, name@, idx as int);
                }
                let counts = self.known_functions[idx].counts.copy();
                if !ranges_match_exec(&in_ids, &counts.input_count) {
                    return Err(BuildError::InputCountMismatch);
                }
                let out_ids = match allocate_all(&counts.output_count, &mut self.next_available_id) {
                    Ok(v) => v,
                    Err(e) => {
                        return Err(e);
                    },
                };
                table_add_all(&mut self.private_count, &counts.private_count);
                table_add_all(&mut self.public_count, &counts.public_count);
                proof {
                    lemma_allocate_ranges_len(old(self).next_available_id@, counts.output_count@);
                }
                let outs = typed_ranges_exec(&out_ids, &counts.output_count);
                let ins = typed_ranges_exec(&in_ids, &counts.input_count);
                self.gates.push(Gate::Call(name, outs, ins));
                Ok(out_ids)
            },
            BuildComplexGate::Convert(out_t, out_n, in_t, first, last) => {
                if first > last || last - first == u64::MAX {
                    return Err(BuildError::EmptyRange);
                }
                let counts = vec![Count::new(out_t, out_n)];
                proof {
                    assert(counts@.drop_last() =~= Seq::<Count>::empty());
                    assert(counts@.last() == Count { type_id: out_t, count: out_n });
                    assert(can_allocate(self.next_available_id@, Seq::<Count>::empty()));
                    assert(allocate_ranges(self.next_available_id@, Seq::<Count>::empty()).1 == self.next_available_id@);
                    assert(can_allocate(self.next_available_id@, counts@) <==> out_n > 0
                        && next_id(self.next_available_id@, out_t)
                        + out_n <= u64::MAX);
                }
                let out_ids = match allocate_all(&counts, &mut self.next_available_id) {
                    Ok(v) => v,
                    Err(e) => {
                        return Err(e);
                    },
                };
                proof {
                    assert(counts@.drop_last() =~= Seq::<Count>::empty());
                }
                let conversion = Conversion::new(Count::new(out_t, out_n), Count::new(in_t, last - first + 1));
                if !contains_conversion(&self.used_conversions, conversion) {
                    self.used_conversions.push(conversion);
                }
                let range = out_ids[0];
                let outs = vec![WireListElement::WireRange(out_t, range.first_id, range.last_id)];
                let ins = vec![WireListElement::WireRange(in_t, first, last)];
                assert(outs@ =~= seq![WireListElement::WireRange(out_t, range.first_id, range.last_id)]);
                assert(ins@ =~= seq![WireListElement::WireRange(in_t, first, last)]);
                self.gates.push(Gate::Convert(outs, ins));
                Ok(out_ids)
            },
        }
    }

    /// Finishes the function: `out_ids` are the body's output wires, one
    /// range per declared output count; they are renumbered to the canonical
    /// ids (see `replace_output_wires`). Returns the function with the input
    /// values its body consumes and the conversions it uses.
    pub fn finish(&mut self, out_ids: Vec<WireRange>) -> (r: Result<FunctionWithInfos, BuildError>)
        ensures
            !ranges_match(out_ids@, old(self).output_count())
                ==> r == Err::<FunctionWithInfos, BuildError>(BuildError::OutputCountMismatch),
            r is Err ==> final(self).body() == old(self).body(),
            ranges_match(out_ids@, old(self).output_count()) ==> {
                let outs = expand(typed_ranges(out_ids@, old(self).output_count()));
                &&& r is Err <==> deletes_an_output(old(self).body(), outs)
                &&& r matches Ok(f) ==> {
                    &&& f.function.name@ == old(self).name()@
                    &&& f.function.output_count@ == old(self).output_count()
                    &&& f.function.input_count@ == old(self).input_count()
                    &&& f.function.body matches FunctionBody::Gates(g)
                        && g@ == renumber_prefix(old(self).body(), outs, outs.len())
                    &&& forall|t: TypeId| #[trigger] count_of(f.public_count@, t) == table_count(old(self).public_table(), t)
                    &&& forall|t: TypeId| #[trigger] count_of(f.function.public_count@, t) == table_count(old(self).public_table(), t)
                    &&& forall|t: TypeId| #[trigger] count_of(f.function.private_count@, t) == table_count(old(self).private_table(), t)
                    &&& forall|t: TypeId| #[trigger] count_of(f.private_count@, t) == table_count(old(self).private_table(), t)
                    &&& f.used_conversions@ == old(self).conversions()
                }
            },
    {
        if !ranges_match_exec(&out_ids, &self.output_count) {
            return Err(BuildError::OutputCountMismatch);
        }
        let wl = typed_ranges_exec(&out_ids, &self.output_count);
        proof {
            assert(well_formed_list(wl@)) by {
                assert forall|i: int| 0 <= i < wl@.len() implies match #[trigger] wl@[i] {
                    WireListElement::Wire(_, _) => true,
                    WireListElement::WireRange(_, f, l) => f <= l,
                } by {
                    assert(out_ids@[i].first_id <= out_ids@[i].last_id);
                }
            }
        }
        let mut gates = take_vec(&mut self.gates);
        match replace_output_wires(&mut gates, &wl) {
            Ok(()) => {},
            Err(e) => {
                self.gates = gates;
                return match e {
                    WireListError::DeletedOutput(t, w) => Err(BuildError::DeletedOutput(t, w)),
                    WireListError::EmptyRange(_, _, _) => Err(BuildError::EmptyRange),
                };
            },
        }
        let mut conversions: Vec<Conversion> = Vec::new();
        let mut i: usize = 0;
        while i < self.used_conversions.len()
            invariant
                i <= self.used_conversions@.len(),
                conversions@ =~= self.used_conversions@.take(i as int),
            decreases self.used_conversions@.len() - i,
        {
            conversions.push(self.used_conversions[i]);
            i += 1;
        }
        Ok(FunctionWithInfos {
            function: Function {
                name: self.name.clone(),
                output_count: copy_counts(&self.output_count),
                input_count: copy_counts(&self.input_count),
                public_count: table_to_counts(&self.public_count),
                private_count: table_to_counts(&self.private_count),
                body: FunctionBody::Gates(gates),
            },
            public_count: table_to_counts(&self.public_count),
            private_count: table_to_counts(&self.private_count),
            used_conversions: conversions,
        })
    }
}

/// A builder over the field of characteristic two, writing into memory.
pub fn new_example_builder() -> (r: GateBuilder<MemorySink>)
    ensures
        r.wf(),
        r.type_count() == 1,
        r.next_ids() == Map::<TypeId, WireId>::empty(),
        r.functions().len() == 0,
{
    let types: Vec<Value> = vec![vec![2u8]];
    GateBuilder::new(MemorySink::new(), types.as_slice())
}

} // verus!
