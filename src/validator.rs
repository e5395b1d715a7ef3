//! The streaming semantic validator.
use vstd::prelude::*;
use std::collections::HashSet;

use crate::field::{is_version, le_nat};
use crate::gates::{element_wires, expand, CaseInvoke, Gate, WireList, WireListElement};
use crate::structs::{
    Count, Function, Header, Inputs, PrivateInputs, PublicInputs, Relation, PROFILE_ARITHMETIC, PROFILE_BOOLEAN,
};
use crate::violations;
use crate::violations::{
    callee_anonymous,
    callee_named,
    msg_short_private,
    msg_short_public,
    msg_arithmetic_in_boolean,
    msg_bad_version,
    msg_boolean_in_arithmetic,
    msg_boolean_needs_two,
    msg_characteristic_mismatch,
    msg_characteristic_too_small,
    msg_degree_mismatch,
    msg_degree_not_one,
    msg_empty,
    msg_no_private_value,
    msg_no_public_value,
    msg_not_in_field,
    msg_profile_mismatch,
    msg_ssa,
    msg_too_many_private,
    msg_too_many_public,
    msg_undeclared_type,
    msg_undefined,
    msg_unexpected_private_inputs,
    msg_unknown_profile,
    msg_version_mismatch,
    subject_add_constant,
    subject_constant,
    subject_mul_constant,
    subject_private_value,
    subject_public_value,
};
use crate::{TypeId, Value, WireId};

verus! {

broadcast use vstd::std_specs::hash::group_hash_axioms;

/// The key under which the wire `(t, w)` is stored.
pub open spec fn wire_key(t: TypeId, w: WireId) -> u128 {
    (t as int * 0x1_0000_0000_0000_0000 + w as int) as u128
}

proof fn lemma_wire_key_injective(t1: TypeId, w1: WireId, t2: TypeId, w2: WireId)
    ensures
        wire_key(t1, w1) == wire_key(t2, w2) ==> t1 == t2 && w1 == w2,
{
    assert(t1 as int * 0x1_0000_0000_0000_0000 + w1 as int == t2 as int * 0x1_0000_0000_0000_0000
        + w2 as int ==> t1 == t2 && w1 == w2) by (nonlinear_arith);
}

/// The set of live wires, per type id.
pub struct LiveWires {
    keys: HashSet<u128>,
}

impl View for LiveWires {
    type V = Set<(TypeId, WireId)>;

    closed spec fn view(&self) -> Set<(TypeId, WireId)> {
        Set::new(|p: (TypeId, WireId)| self.keys@.contains(wire_key(p.0, p.1)))
    }
}

impl LiveWires {
    pub fn new() -> (r: LiveWires)
        ensures
            r@ == Set::<(TypeId, WireId)>::empty(),
    {
        let r = LiveWires { keys: HashSet::new() };
        assert(r@ =~= Set::<(TypeId, WireId)>::empty());
        r
    }

    fn key(t: TypeId, w: WireId) -> (r: u128)
        ensures
            r == wire_key(t, w),
    {
        (t as u128) * 0x1_0000_0000_0000_0000 + (w as u128)
    }

    pub fn contains(&self, t: TypeId, w: WireId) -> (r: bool)
        ensures
            r == self@.contains((t, w)),
    {
        self.keys.contains(&Self::key(t, w))
    }

    pub fn insert(&mut self, t: TypeId, w: WireId)
        ensures
            final(self)@ == old(self)@.insert((t, w)),
    {
        self.keys.insert(Self::key(t, w));
        assert forall|p: (TypeId, WireId)| #[trigger] final(self)@.contains(p) == old(self)@.insert((t, w)).contains(p) by {
            lemma_wire_key_injective(p.0, p.1, t, w);
        }
        assert(final(self)@ =~= old(self)@.insert((t, w)));
    }

    pub fn remove(&mut self, t: TypeId, w: WireId)
        ensures
            final(self)@ == old(self)@.remove((t, w)),
    {
        self.keys.remove(&Self::key(t, w));
        assert forall|p: (TypeId, WireId)| #[trigger] final(self)@.contains(p) == old(self)@.remove((t, w)).contains(p) by {
            lemma_wire_key_injective(p.0, p.1, t, w);
        }
        assert(final(self)@ =~= old(self)@.remove((t, w)));
    }
}

/// What a validator knows after the messages it has ingested so far.
pub struct ValidatorState {
    pub as_prover: bool,
    pub got_header: bool,
    pub profile: Seq<char>,
    pub version: Seq<char>,
    pub is_arithmetic: bool,
    /// The characteristic of each type id, from the first header.
    pub types: Seq<Seq<u8>>,
    pub degree: u32,
    /// Public input values not yet consumed.
    pub public_queue: u64,
    /// Private input values not yet consumed.
    pub private_queue: u64,
    pub live: Set<(TypeId, WireId)>,
    /// One more than the largest wire id declared (saturating).
    pub wire_bound: u64,
    /// The declared functions: name, and the public and private values that
    /// a call consumes.
    pub signatures: Seq<(Seq<char>, nat, nat)>,
    pub violations: Seq<Seq<char>>,
}

pub open spec fn initial_state(as_prover: bool) -> ValidatorState {
    ValidatorState {
        as_prover,
        got_header: false,
        profile: Seq::empty(),
        version: Seq::empty(),
        is_arithmetic: false,
        types: Seq::empty(),
        degree: 0,
        public_queue: 0,
        private_queue: 0,
        live: Set::empty(),
        wire_bound: 0,
        signatures: Seq::empty(),
        violations: Seq::empty(),
    }
}

pub open spec fn violate(s: ValidatorState, m: Seq<char>) -> ValidatorState {
    ValidatorState { violations: s.violations.push(m), ..s }
}

pub open spec fn violate_if(s: ValidatorState, c: bool, m: Seq<char>) -> ValidatorState {
    if c {
        violate(s, m)
    } else {
        s
    }
}

pub open spec fn saturating_add(a: u64, b: nat) -> u64 {
    if a + b > u64::MAX {
        u64::MAX
    } else {
        (a + b) as u64
    }
}

pub open spec fn bump(b: u64, w: WireId) -> u64 {
    if w < b {
        b
    } else if w == u64::MAX {
        w
    } else {
        (w + 1) as u64
    }
}

pub open spec fn declare(s: ValidatorState, t: TypeId, w: WireId) -> ValidatorState {
    ValidatorState { live: s.live.insert((t, w)), wire_bound: bump(s.wire_bound, w), ..s }
}

/// Reading a wire: it must be live. As prover a dead wire is a violation; in
/// either role it is then declared, so that it is reported once.
pub open spec fn use_wire(s: ValidatorState, t: TypeId, w: WireId) -> ValidatorState {
    if s.live.contains((t, w)) {
        s
    } else {
        declare(violate_if(s, s.as_prover, msg_undefined(w)), t, w)
    }
}

/// Writing a wire: it must not be live (single assignment).
pub open spec fn define_wire(s: ValidatorState, t: TypeId, w: WireId) -> ValidatorState {
    declare(violate_if(s, s.live.contains((t, w)), msg_ssa(w)), t, w)
}

/// Reserving a wire (a bulk allocation): it must not be live; it becomes
/// live when a gate assigns it.
pub open spec fn reserve_wire(s: ValidatorState, t: TypeId, w: WireId) -> ValidatorState {
    ValidatorState { wire_bound: bump(s.wire_bound, w), ..violate_if(s, s.live.contains((t, w)), msg_ssa(w)) }
}

/// Freeing a wire: it must be live, in either role; then it is not.
pub open spec fn free_wire(s: ValidatorState, t: TypeId, w: WireId) -> ValidatorState {
    if s.live.contains((t, w)) {
        ValidatorState { live: s.live.remove((t, w)), ..s }
    } else {
        ValidatorState { wire_bound: bump(s.wire_bound, w), ..violate(s, msg_undefined(w)) }
    }
}

#[derive(Clone, Copy, PartialEq, Eq, Structural)]
pub enum WireOp {
    Use,
    Define,
    Reserve,
    Free,
}

pub open spec fn wire_op(s: ValidatorState, op: WireOp, t: TypeId, w: WireId) -> ValidatorState {
    match op {
        WireOp::Use => use_wire(s, t, w),
        WireOp::Define => define_wire(s, t, w),
        WireOp::Reserve => reserve_wire(s, t, w),
        WireOp::Free => free_wire(s, t, w),
    }
}

/// `op` on each wire `lo..=hi` of type `t`, in increasing order.
pub open spec fn range_op(s: ValidatorState, op: WireOp, t: TypeId, lo: int, hi: int) -> ValidatorState
    decreases hi - lo + 1,
{
    if lo > hi {
        s
    } else {
        range_op(wire_op(s, op, t, lo as WireId), op, t, lo + 1, hi)
    }
}

pub open spec fn element_op(s: ValidatorState, op: WireOp, e: WireListElement) -> ValidatorState {
    match e {
        WireListElement::Wire(t, w) => wire_op(s, op, t, w),
        WireListElement::WireRange(t, first, last) => range_op(s, op, t, first as int, last as int),
    }
}

pub open spec fn list_op(s: ValidatorState, op: WireOp, wl: Seq<WireListElement>) -> ValidatorState
    decreases wl.len(),
{
    if wl.len() == 0 {
        s
    } else {
        element_op(list_op(s, op, wl.drop_last()), op, wl.last())
    }
}

pub open spec fn branches_use(s: ValidatorState, bs: Seq<CaseInvoke>) -> ValidatorState
    decreases bs.len(),
{
    if bs.len() == 0 {
        s
    } else {
        let s1 = branches_use(s, bs.drop_last());
        match bs.last() {
            CaseInvoke::AbstractGateCall(_, i) => list_op(s1, WireOp::Use, i@),
            CaseInvoke::AbstractAnonCall(i, _, _, _) => list_op(s1, WireOp::Use, i@),
        }
    }
}

/// A value of type `t` must be declared, non-empty, and below the characteristic.
pub open spec fn check_value(s: ValidatorState, t: nat, v: Seq<u8>, subject: Seq<char>) -> ValidatorState {
    if t >= s.types.len() {
        violate(s, msg_undeclared_type(t))
    } else {
        let s1 = violate_if(s, v.len() == 0, msg_empty(subject));
        violate_if(s1, le_nat(v) >= le_nat(s.types[t as int]), msg_not_in_field(subject, v, s.types[t as int]))
    }
}

pub open spec fn require_arithmetic(s: ValidatorState, name: Seq<char>) -> ValidatorState {
    violate_if(s, !s.is_arithmetic, msg_arithmetic_in_boolean(name))
}

pub open spec fn require_boolean(s: ValidatorState, name: Seq<char>) -> ValidatorState {
    violate_if(s, s.is_arithmetic, msg_boolean_in_arithmetic(name))
}

pub open spec fn binary_gate(s: ValidatorState, t: TypeId, o: WireId, l: WireId, r: WireId) -> ValidatorState {
    define_wire(use_wire(use_wire(s, t, l), t, r), t, o)
}

/// The effect of one gate.
pub open spec fn gate_step(s: ValidatorState, g: Gate) -> ValidatorState {
    match g {
        Gate::Constant(t, o, v) => define_wire(check_value(s, t as nat, v@, subject_constant()), t, o),
        Gate::AssertZero(t, i) => use_wire(s, t, i),
        Gate::Copy(t, o, i) => define_wire(use_wire(s, t, i), t, o),
        Gate::Add(t, o, l, r) => binary_gate(require_arithmetic(s, "Add"@), t, o, l, r),
        Gate::Mul(t, o, l, r) => binary_gate(require_arithmetic(s, "Mul"@), t, o, l, r),
        Gate::AddConstant(t, o, i, v) => define_wire(
            use_wire(check_value(require_arithmetic(s, "AddConstant"@), t as nat, v@, subject_add_constant(o)), t, i),
            t,
            o,
        ),
        Gate::MulConstant(t, o, i, v) => define_wire(
            use_wire(check_value(require_arithmetic(s, "MulConstant"@), t as nat, v@, subject_mul_constant(o)), t, i),
            t,
            o,
        ),
        Gate::And(t, o, l, r) => binary_gate(require_boolean(s, "And"@), t, o, l, r),
        Gate::Xor(t, o, l, r) => binary_gate(require_boolean(s, "Xor"@), t, o, l, r),
        Gate::Not(t, o, i) => define_wire(use_wire(require_boolean(s, "Not"@), t, i), t, o),
        Gate::PublicInput(t, o) => {
            let s1 = define_wire(s, t, o);
            if s1.public_queue > 0 {
                ValidatorState { public_queue: (s1.public_queue - 1) as u64, ..s1 }
            } else {
                violate(s1, msg_no_public_value(o))
            }
        },
        Gate::PrivateInput(t, o) => {
            let s1 = define_wire(s, t, o);
            if !s1.as_prover {
                s1
            } else if s1.private_queue > 0 {
                ValidatorState { private_queue: (s1.private_queue - 1) as u64, ..s1 }
            } else {
                violate(s1, msg_no_private_value(o))
            }
        },
        Gate::New(t, first, last) => range_op(s, WireOp::Reserve, t, first as int, last as int),
        Gate::Delete(t, first, last) => range_op(s, WireOp::Free, t, first as int, last as int),
        Gate::Convert(o, i) => list_op(list_op(s, WireOp::Use, i@), WireOp::Define, o@),
        Gate::Call(n, o, i) => list_op(call_consume(list_op(s, WireOp::Use, i@), n@), WireOp::Define, o@),
        Gate::AnonCall(o, i, p, w, _) => list_op(
            consume(list_op(s, WireOp::Use, i@), p as nat, w as nat, callee_anonymous()),
            WireOp::Define,
            o@,
        ),
        Gate::Switch(t, c, o, _, bs) => list_op(branches_use(use_wire(s, t, c), bs@), WireOp::Define, o@),
        Gate::For(_, _, _, o, _) => list_op(s, WireOp::Define, o@),
    }
}

/// The effect of a sequence of gates, in order.
pub open spec fn gates_step(s: ValidatorState, gs: Seq<Gate>) -> ValidatorState
    decreases gs.len(),
{
    if gs.len() == 0 {
        s
    } else {
        gate_step(gates_step(s, gs.drop_last()), gs.last())
    }
}

pub open spec fn types_view(types: Seq<Value>) -> Seq<Seq<u8>> {
    types.map_values(|v: Value| v@)
}

/// One violation per characteristic that is not above one, or (under the
/// boolean profile, `two_only`) that is not two.
pub open spec fn characteristic_checks(s: ValidatorState, types: Seq<Seq<u8>>, two_only: bool) -> ValidatorState
    decreases types.len(),
{
    if types.len() == 0 {
        s
    } else {
        let s1 = characteristic_checks(s, types.drop_last(), two_only);
        if two_only {
            violate_if(s1, le_nat(types.last()) != 2, msg_boolean_needs_two())
        } else {
            violate_if(s1, le_nat(types.last()) <= 1, msg_characteristic_too_small())
        }
    }
}

pub open spec fn same_characteristics(a: Seq<Seq<u8>>, b: Seq<Seq<u8>>) -> bool {
    a.len() == b.len() && forall|i: int| 0 <= i < a.len() ==> le_nat(#[trigger] a[i]) == le_nat(b[i])
}

/// The first header is recorded and checked on its own; each later one must
/// agree with it.
pub open spec fn header_step(s: ValidatorState, h: Header) -> ValidatorState {
    let types = types_view(h.types@);
    if s.got_header {
        let s1 = violate_if(s, !same_characteristics(s.types, types), msg_characteristic_mismatch());
        let s2 = violate_if(s1, s.degree != h.field_degree, msg_degree_mismatch());
        let s3 = violate_if(s2, s.profile != h.profile@, msg_profile_mismatch());
        violate_if(s3, s.version != h.version@, msg_version_mismatch())
    } else {
        let s0 = ValidatorState {
            got_header: true,
            types,
            degree: h.field_degree,
            profile: h.profile@,
            version: h.version@,
            is_arithmetic: h.profile@ == PROFILE_ARITHMETIC@,
            ..s
        };
        let s1 = characteristic_checks(s0, types, false);
        let s2 = violate_if(s1, h.field_degree != 1, msg_degree_not_one());
        let s3 = if h.profile@ == PROFILE_ARITHMETIC@ {
            s2
        } else if h.profile@ == PROFILE_BOOLEAN@ {
            characteristic_checks(s2, types, true)
        } else {
            violate(s2, msg_unknown_profile())
        };
        violate_if(s3, !is_version(h.version@), msg_bad_version())
    }
}

/// Checks the values of one type id and queues them.
pub open spec fn values_step(s: ValidatorState, t: nat, vals: Seq<Value>, public: bool) -> ValidatorState
    decreases vals.len(),
{
    if vals.len() == 0 {
        s
    } else {
        let s1 = values_step(s, t, vals.drop_last(), public);
        let v = vals.last()@;
        if public {
            let s2 = check_value(s1, t, v, subject_public_value(v));
            ValidatorState { public_queue: saturating_add(s2.public_queue, 1), ..s2 }
        } else {
            let s2 = check_value(s1, t, v, subject_private_value(v));
            ValidatorState { private_queue: saturating_add(s2.private_queue, 1), ..s2 }
        }
    }
}

pub open spec fn inputs_step(s: ValidatorState, ins: Seq<Inputs>, public: bool) -> ValidatorState
    decreases ins.len(),
{
    if ins.len() == 0 {
        s
    } else {
        values_step(inputs_step(s, ins.drop_last(), public), (ins.len() - 1) as nat, ins.last().values@, public)
    }
}

pub open spec fn public_inputs_step(s: ValidatorState, m: PublicInputs) -> ValidatorState {
    inputs_step(header_step(s, m.header), m.inputs@, true)
}

pub open spec fn private_inputs_step(s: ValidatorState, m: PrivateInputs) -> ValidatorState {
    let s0 = violate_if(s, !s.as_prover, msg_unexpected_private_inputs());
    inputs_step(header_step(s0, m.header), m.inputs@, false)
}

/// The total of a list of counts.
pub open spec fn total_count(cs: Seq<Count>) -> nat
    decreases cs.len(),
{
    if cs.len() == 0 {
        0
    } else {
        total_count(cs.drop_last()) + cs.last().count as nat
    }
}

/// Records the signature of one function.
pub open spec fn declare_function(s: ValidatorState, f: Function) -> ValidatorState {
    ValidatorState {
        signatures: s.signatures.push((f.name@, total_count(f.public_count@), total_count(f.private_count@))),
        ..s
    }
}

/// Records the signatures of the functions that a relation declares.
pub open spec fn declare_functions(s: ValidatorState, fs: Seq<Function>) -> ValidatorState
    decreases fs.len(),
{
    if fs.len() == 0 {
        s
    } else {
        declare_function(declare_functions(s, fs.drop_last()), fs.last())
    }
}

/// The latest signature declared under `name`.
pub open spec fn signature_of(sigs: Seq<(Seq<char>, nat, nat)>, name: Seq<char>) -> Option<(nat, nat)>
    decreases sigs.len(),
{
    if sigs.len() == 0 {
        None
    } else if sigs.last().0 == name {
        Some((sigs.last().1, sigs.last().2))
    } else {
        signature_of(sigs.drop_last(), name)
    }
}

/// A call consumes `p` public values and, as prover, `q` private values; a
/// shortfall is one violation each, naming the callee, and empties the queue.
pub open spec fn consume(s: ValidatorState, p: nat, q: nat, callee: Seq<char>) -> ValidatorState {
    let s1 = if s.public_queue >= p {
        ValidatorState { public_queue: (s.public_queue - p) as u64, ..s }
    } else {
        ValidatorState { public_queue: 0, ..violate(s, msg_short_public(callee)) }
    };
    if !s1.as_prover {
        s1
    } else if s1.private_queue >= q {
        ValidatorState { private_queue: (s1.private_queue - q) as u64, ..s1 }
    } else {
        ValidatorState { private_queue: 0, ..violate(s1, msg_short_private(callee)) }
    }
}

/// A call of a declared function consumes what its signature says; a call
/// of a function not declared consumes nothing.
pub open spec fn call_consume(s: ValidatorState, name: Seq<char>) -> ValidatorState {
    match signature_of(s.signatures, name) {
        Some((p, q)) => consume(s, p, q, callee_named(name)),
        None => s,
    }
}

/// The state in which a relation's gates are checked: its header taken in,
/// its functions declared.
pub open spec fn relation_start(s: ValidatorState, r: Relation) -> ValidatorState {
    declare_functions(header_step(s, r.header), r.functions@)
}

pub open spec fn relation_step(s: ValidatorState, r: Relation) -> ValidatorState {
    gates_step(relation_start(s, r), r.gates@)
}

/// The final check: every queued input value must have been consumed.
pub open spec fn final_violations(s: ValidatorState) -> Seq<Seq<char>> {
    let s1 = violate_if(s, s.public_queue > 0, msg_too_many_public(s.public_queue));
    violate_if(s1, s.as_prover && s.private_queue > 0, msg_too_many_private(s.private_queue)).violations
}

proof fn lemma_le_nat_single(b: u8)
    ensures
        le_nat(seq![b]) == b as nat,
{
    assert(seq![b].drop_first() =~= Seq::<u8>::empty());
    assert(le_nat(Seq::<u8>::empty()) == 0);
    assert(seq![b][0] == b);
}

/// As prover, reading a wire that is not live records exactly one
/// violation, which names that wire; the wire is then live.
pub proof fn lemma_read_of_undeclared_wire(s: ValidatorState, t: TypeId, w: WireId)
    requires
        s.as_prover,
        !s.live.contains((t, w)),
    ensures
        use_wire(s, t, w).violations == s.violations.push(msg_undefined(w)),
        use_wire(s, t, w).live.contains((t, w)),
{
}

/// As prover, a gate whose only input is a wire that is not live (an
/// `AssertZero`, or a `Copy` to a fresh wire) records exactly one violation,
/// which names that wire.
pub proof fn lemma_gate_reading_undeclared_wire(s: ValidatorState, g: Gate, t: TypeId, w: WireId)
    requires
        s.as_prover,
        !s.live.contains((t, w)),
        g == Gate::AssertZero(t, w) || exists|o: WireId| o != w && !s.live.contains((t, o)) && g == Gate::Copy(t, o, w),
    ensures
        gate_step(s, g).violations == s.violations.push(msg_undefined(w)),
{
    if g is Copy {
        let o = choose|o: WireId| o != w && !s.live.contains((t, o)) && g == Gate::Copy(t, o, w);
        let s1 = use_wire(s, t, w);
        assert(!s1.live.contains((t, o)));
    }
}

/// Re-defining a live wire records exactly one violation, the single
/// assignment one, whichever gate writes it: a constant in its field, a copy
/// or an operation of the profile on live wires, or an input gate with a
/// value waiting.
pub proof fn lemma_redefinition_is_one_violation(s: ValidatorState, g: Gate, t: TypeId, o: WireId)
    requires
        s.live.contains((t, o)),
        match g {
            Gate::Constant(gt, go, v) => gt == t && go == o && (t as int) < s.types.len() && v@.len() > 0
                && le_nat(v@) < le_nat(s.types[t as int]),
            Gate::Copy(gt, go, i) => gt == t && go == o && s.live.contains((t, i)),
            Gate::Add(gt, go, l, r) | Gate::Mul(gt, go, l, r) => gt == t && go == o && s.is_arithmetic
                && s.live.contains((t, l)) && s.live.contains((t, r)),
            Gate::And(gt, go, l, r) | Gate::Xor(gt, go, l, r) => gt == t && go == o && !s.is_arithmetic
                && s.live.contains((t, l)) && s.live.contains((t, r)),
            Gate::Not(gt, go, i) => gt == t && go == o && !s.is_arithmetic && s.live.contains((t, i)),
            Gate::PublicInput(gt, go) => gt == t && go == o && s.public_queue > 0,
            Gate::PrivateInput(gt, go) => gt == t && go == o && (s.as_prover ==> s.private_queue > 0),
            _ => false,
        },
    ensures
        gate_step(s, g).violations == s.violations.push(msg_ssa(o)),
        gate_step(s, g).live.contains((t, o)),
{
}

/// In either role, freeing the range `lo..=hi` where no wire is live
/// records exactly one violation per wire, naming it, in increasing order;
/// none of them is live afterwards.
pub proof fn lemma_free_of_dead_range(s: ValidatorState, t: TypeId, lo: int, hi: int)
    requires
        0 <= lo,
        hi <= u64::MAX,
        forall|w: WireId| lo <= w <= hi ==> !s.live.contains((t, w)),
    ensures
        range_op(s, WireOp::Free, t, lo, hi).violations == s.violations + Seq::new(
            if lo <= hi { (hi - lo + 1) as nat } else { 0 },
            |i: int| msg_undefined((lo + i) as WireId),
        ),
        forall|w: WireId| lo <= w <= hi ==> !range_op(s, WireOp::Free, t, lo, hi).live.contains((t, w)),
    decreases hi - lo + 1,
{
    if lo <= hi {
        let s1 = free_wire(s, t, lo as WireId);
        assert(s1.violations == s.violations.push(msg_undefined(lo as WireId)));
        assert forall|w: WireId| lo + 1 <= w <= hi implies !s1.live.contains((t, w)) by {
            assert(!s.live.contains((t, w)));
        }
        lemma_free_of_dead_range(s1, t, lo + 1, hi);
        let rest = Seq::new(if lo + 1 <= hi { (hi - lo) as nat } else { 0 }, |i: int| msg_undefined((lo + 1 + i) as WireId));
        let all = Seq::new((hi - lo + 1) as nat, |i: int| msg_undefined((lo + i) as WireId));
        assert(s.violations.push(msg_undefined(lo as WireId)) + rest =~= s.violations + all);
        lemma_free_keeps_dead(s1, t, lo + 1, hi, lo as WireId);
    } else {
        assert(s.violations + Seq::<Seq<char>>::empty() =~= s.violations);
    }
}

/// The violations that freeing `lo..=hi` records: one for each wire of the
/// range that is not live, naming it, in increasing order.
pub open spec fn free_messages(live: Set<(TypeId, WireId)>, t: TypeId, lo: int, hi: int) -> Seq<Seq<char>>
    decreases hi - lo + 1,
{
    if lo > hi {
        Seq::empty()
    } else {
        (if live.contains((t, lo as WireId)) {
            Seq::empty()
        } else {
            seq![msg_undefined(lo as WireId)]
        }) + free_messages(live, t, lo + 1, hi)
    }
}

proof fn lemma_free_messages_local(a: Set<(TypeId, WireId)>, b: Set<(TypeId, WireId)>, t: TypeId, lo: int, hi: int)
    requires
        0 <= lo,
        hi <= u64::MAX,
        forall|w: WireId| lo <= w <= hi ==> (a.contains((t, w)) <==> b.contains((t, w))),
    ensures
        free_messages(a, t, lo, hi) == free_messages(b, t, lo, hi),
    decreases hi - lo + 1,
{
    if lo <= hi {
        lemma_free_messages_local(a, b, t, lo + 1, hi);
    }
}

/// In either role, freeing a range records exactly one violation per wire of it
/// that is not live, in increasing order, whatever the others; afterwards no
/// wire of the range is live.
pub proof fn lemma_free_of_range(s: ValidatorState, t: TypeId, lo: int, hi: int)
    requires
        0 <= lo,
        hi <= u64::MAX,
    ensures
        range_op(s, WireOp::Free, t, lo, hi).violations == s.violations + free_messages(s.live, t, lo, hi),
        forall|w: WireId| lo <= w <= hi ==> !range_op(s, WireOp::Free, t, lo, hi).live.contains((t, w)),
    decreases hi - lo + 1,
{
    if lo <= hi {
        let s1 = free_wire(s, t, lo as WireId);
        lemma_free_of_range(s1, t, lo + 1, hi);
        lemma_free_messages_local(s1.live, s.live, t, lo + 1, hi);
        let first = if s.live.contains((t, lo as WireId)) {
            Seq::<Seq<char>>::empty()
        } else {
            seq![msg_undefined(lo as WireId)]
        };
        assert(s1.violations =~= s.violations + first);
        assert(s.violations + first + free_messages(s.live, t, lo + 1, hi) =~= s.violations + (first + free_messages(
            s.live,
            t,
            lo + 1,
            hi,
        )));
        lemma_free_keeps_dead(s1, t, lo + 1, hi, lo as WireId);
    } else {
        assert(s.violations + Seq::<Seq<char>>::empty() =~= s.violations);
    }
}

/// `g` reads the dead wire `(t, w)` (once or twice) and nothing else that
/// is dead, writes a fresh wire, fits the profile, and holds a constant of
/// its field, if any.
pub open spec fn reads_dead_wire(s: ValidatorState, g: Gate, t: TypeId, w: WireId) -> bool {
    let fresh = |o: WireId| o != w && !s.live.contains((t, o));
    match g {
        Gate::AssertZero(gt, i) => gt == t && i == w,
        Gate::Copy(gt, o, i) => gt == t && i == w && fresh(o),
        Gate::Not(gt, o, i) => gt == t && i == w && fresh(o) && !s.is_arithmetic,
        Gate::AddConstant(gt, o, i, v) | Gate::MulConstant(gt, o, i, v) => gt == t && i == w && fresh(o)
            && s.is_arithmetic && in_field(s, t as nat, v@),
        Gate::Add(gt, o, l, r) | Gate::Mul(gt, o, l, r) => gt == t && fresh(o) && s.is_arithmetic && (l == w && (r
            == w || s.live.contains((t, r))) || r == w && s.live.contains((t, l))),
        Gate::And(gt, o, l, r) | Gate::Xor(gt, o, l, r) => gt == t && fresh(o) && !s.is_arithmetic && (l == w && (r
            == w || s.live.contains((t, r))) || r == w && s.live.contains((t, l))),
        _ => false,
    }
}

/// As prover, any gate that reads a wire that is not live records exactly
/// one violation, naming that wire, even when it reads it twice; the wire is
/// live afterwards.
pub proof fn lemma_any_gate_reading_undeclared_wire(s: ValidatorState, g: Gate, t: TypeId, w: WireId)
    requires
        s.as_prover,
        !s.live.contains((t, w)),
        reads_dead_wire(s, g, t, w),
    ensures
        gate_step(s, g).violations == s.violations.push(msg_undefined(w)),
        gate_step(s, g).live.contains((t, w)),
{
}

/// As prover, a binary gate that reads the same dead wire twice records one
/// violation, not two: the first read declares the wire.
pub proof fn lemma_double_read_of_undeclared_wire(s: ValidatorState, t: TypeId, o: WireId, w: WireId)
    requires
        s.as_prover,
        s.is_arithmetic,
        !s.live.contains((t, w)),
        !s.live.contains((t, o)),
        o != w,
    ensures
        gate_step(s, Gate::Add(t, o, w, w)).violations == s.violations.push(msg_undefined(w)),
        gate_step(s, Gate::Mul(t, o, w, w)).violations == s.violations.push(msg_undefined(w)),
{
}

proof fn lemma_free_keeps_dead(s: ValidatorState, t: TypeId, lo: int, hi: int, w: WireId)
    requires
        !s.live.contains((t, w)),
        w < lo,
        0 <= lo,
        hi <= u64::MAX,
    ensures
        !range_op(s, WireOp::Free, t, lo, hi).live.contains((t, w)),
    decreases hi - lo + 1,
{
    if lo <= hi {
        lemma_free_keeps_dead(free_wire(s, t, lo as WireId), t, lo + 1, hi, w);
    }
}

/// Freeing a live wire removes it, without a violation, and writing the
/// same id again afterwards is accepted.
pub proof fn lemma_free_then_redefine(s: ValidatorState, t: TypeId, w: WireId)
    requires
        s.live.contains((t, w)),
    ensures
        free_wire(s, t, w).violations == s.violations,
        !free_wire(s, t, w).live.contains((t, w)),
        define_wire(free_wire(s, t, w), t, w).violations == s.violations,
{
}

/// A value of type `t` that lies in its field.
pub open spec fn in_field(s: ValidatorState, t: nat, v: Seq<u8>) -> bool {
    t < s.types.len() && v.len() > 0 && le_nat(v) < le_nat(s.types[t as int])
}

/// A gate that breaks no rule in state `s`: it reads live wires, writes
/// wires that are not live, uses gates of the profile and constants of the
/// field, finds a value for each input gate, and frees live wires.
pub open spec fn gate_clean(s: ValidatorState, g: Gate) -> bool {
    match g {
        Gate::Constant(t, o, v) => in_field(s, t as nat, v@) && !s.live.contains((t, o)),
        Gate::AssertZero(t, i) => s.live.contains((t, i)),
        Gate::Copy(t, o, i) => s.live.contains((t, i)) && !s.live.contains((t, o)),
        Gate::Add(t, o, l, r) | Gate::Mul(t, o, l, r) => s.is_arithmetic && s.live.contains((t, l)) && s.live.contains(
            (t, r),
        ) && !s.live.contains((t, o)),
        Gate::AddConstant(t, o, i, v) | Gate::MulConstant(t, o, i, v) => s.is_arithmetic && in_field(s, t as nat, v@)
            && s.live.contains((t, i)) && !s.live.contains((t, o)),
        Gate::And(t, o, l, r) | Gate::Xor(t, o, l, r) => !s.is_arithmetic && s.live.contains((t, l)) && s.live.contains(
            (t, r),
        ) && !s.live.contains((t, o)),
        Gate::Not(t, o, i) => !s.is_arithmetic && s.live.contains((t, i)) && !s.live.contains((t, o)),
        Gate::PublicInput(t, o) => !s.live.contains((t, o)) && s.public_queue > 0,
        Gate::PrivateInput(t, o) => !s.live.contains((t, o)) && (s.as_prover ==> s.private_queue > 0),
        Gate::New(t, first, last) => forall|w: WireId| first <= w <= last ==> !s.live.contains((t, w)),
        Gate::Delete(t, first, last) => forall|w: WireId| first <= w <= last ==> s.live.contains((t, w)),
        Gate::Convert(o, i) => all_live(s, expand(i@)) && fresh_and_distinct(s, expand(o@)),
        Gate::Call(n, o, i) => all_live(s, expand(i@)) && fresh_and_distinct(s, expand(o@)) && call_supplied(s, n@),
        Gate::AnonCall(o, i, p, w, _) => all_live(s, expand(i@)) && fresh_and_distinct(s, expand(o@)) && supplied(
            s,
            p as nat,
            w as nat,
        ),
        Gate::Switch(t, c, o, _, bs) => s.live.contains((t, c)) && branches_live(s, bs@) && fresh_and_distinct(
            s,
            expand(o@),
        ),
        Gate::For(_, _, _, o, _) => fresh_and_distinct(s, expand(o@)),
    }
}

/// Every input wire of every branch is live.
pub open spec fn branches_live(s: ValidatorState, bs: Seq<CaseInvoke>) -> bool {
    forall|k: int|
        0 <= k < bs.len() ==> match #[trigger] bs[k] {
            CaseInvoke::AbstractGateCall(_, i) => all_live(s, expand(i@)),
            CaseInvoke::AbstractAnonCall(i, _, _, _) => all_live(s, expand(i@)),
        }
}

proof fn lemma_branches_live(s: ValidatorState, bs: Seq<CaseInvoke>)
    requires
        branches_live(s, bs),
    ensures
        branches_use(s, bs) == s,
    decreases bs.len(),
{
    if bs.len() > 0 {
        let d = bs.drop_last();
        assert(branches_live(s, d)) by {
            assert forall|k: int| 0 <= k < d.len() implies match #[trigger] d[k] {
                CaseInvoke::AbstractGateCall(_, i) => all_live(s, expand(i@)),
                CaseInvoke::AbstractAnonCall(i, _, _, _) => all_live(s, expand(i@)),
            } by {
                assert(d[k] == bs[k]);
            }
        }
        lemma_branches_live(s, d);
        assert(bs.last() == bs[bs.len() - 1]);
        match bs.last() {
            CaseInvoke::AbstractGateCall(_, i) => lemma_use_live_list(s, i@),
            CaseInvoke::AbstractAnonCall(i, _, _, _) => lemma_use_live_list(s, i@),
        }
    }
}

/// Enough public values, and as prover enough private values, are queued.
pub open spec fn supplied(s: ValidatorState, p: nat, q: nat) -> bool {
    s.public_queue >= p && (s.as_prover ==> s.private_queue >= q)
}

/// A call of `name` finds the values its signature asks for.
pub open spec fn call_supplied(s: ValidatorState, name: Seq<char>) -> bool {
    match signature_of(s.signatures, name) {
        Some((p, q)) => supplied(s, p, q),
        None => true,
    }
}

/// Every wire of `ws` is live.
pub open spec fn all_live(s: ValidatorState, ws: Seq<(TypeId, WireId)>) -> bool {
    forall|i: int| 0 <= i < ws.len() ==> s.live.contains(#[trigger] ws[i])
}

/// No wire of `ws` is live, and no wire occurs twice.
pub open spec fn fresh_and_distinct(s: ValidatorState, ws: Seq<(TypeId, WireId)>) -> bool {
    &&& forall|i: int| 0 <= i < ws.len() ==> !s.live.contains(#[trigger] ws[i])
    &&& forall|i: int, j: int| 0 <= i < j < ws.len() ==> ws[i] != ws[j]
}

/// What a clean step leaves as it was.
pub open spec fn same_frame(a: ValidatorState, b: ValidatorState) -> bool {
    a.violations == b.violations && a.types == b.types && a.is_arithmetic == b.is_arithmetic && a.as_prover
        == b.as_prover && a.public_queue == b.public_queue && a.private_queue == b.private_queue
}

proof fn lemma_use_live_range(s: ValidatorState, t: TypeId, lo: int, hi: int)
    requires
        0 <= lo,
        hi <= u64::MAX,
        forall|w: WireId| lo <= w <= hi ==> s.live.contains((t, w)),
    ensures
        range_op(s, WireOp::Use, t, lo, hi) == s,
    decreases hi - lo + 1,
{
    if lo <= hi {
        lemma_use_live_range(s, t, lo + 1, hi);
    }
}

proof fn lemma_use_live_list(s: ValidatorState, wl: Seq<WireListElement>)
    requires
        all_live(s, expand(wl)),
    ensures
        list_op(s, WireOp::Use, wl) == s,
    decreases wl.len(),
{
    if wl.len() > 0 {
        let d = wl.drop_last();
        let e = wl.last();
        assert(expand(wl) == expand(d) + element_wires(e));
        assert forall|i: int| 0 <= i < expand(d).len() implies s.live.contains(#[trigger] expand(d)[i]) by {
            assert(expand(wl)[i] == expand(d)[i]);
        }
        lemma_use_live_list(s, d);
        match e {
            WireListElement::Wire(t, w) => {
                assert(expand(wl)[expand(d).len() as int] == (t, w));
            },
            WireListElement::WireRange(t, first, last) => {
                assert forall|w: WireId| first <= w <= last implies s.live.contains((t, w)) by {
                    let k = expand(d).len() + (w - first);
                    assert(expand(wl)[k] == element_wires(e)[w - first]);
                }
                lemma_use_live_range(s, t, first as int, last as int);
            },
        }
    }
}

proof fn lemma_define_fresh_range(s: ValidatorState, t: TypeId, lo: int, hi: int)
    requires
        0 <= lo,
        hi <= u64::MAX,
        forall|w: WireId| lo <= w <= hi ==> !s.live.contains((t, w)),
    ensures
        same_frame(range_op(s, WireOp::Define, t, lo, hi), s),
        forall|p: (TypeId, WireId)|
            #[trigger] range_op(s, WireOp::Define, t, lo, hi).live.contains(p) <==> s.live.contains(p) || (p.0 == t
                && lo <= p.1 <= hi),
    decreases hi - lo + 1,
{
    if lo <= hi {
        let s1 = define_wire(s, t, lo as WireId);
        assert forall|w: WireId| lo + 1 <= w <= hi implies !s1.live.contains((t, w)) by {
            assert(!s.live.contains((t, w)));
        }
        lemma_define_fresh_range(s1, t, lo + 1, hi);
    }
}

proof fn lemma_define_fresh_list(s: ValidatorState, wl: Seq<WireListElement>)
    requires
        fresh_and_distinct(s, expand(wl)),
    ensures
        same_frame(list_op(s, WireOp::Define, wl), s),
        forall|p: (TypeId, WireId)|
            #[trigger] list_op(s, WireOp::Define, wl).live.contains(p) <==> s.live.contains(p)
                || expand(wl).contains(p),
    decreases wl.len(),
{
    if wl.len() > 0 {
        let d = wl.drop_last();
        let e = wl.last();
        let x = expand(wl);
        let xd = expand(d);
        assert(x == xd + element_wires(e));
        assert(fresh_and_distinct(s, xd)) by {
            assert forall|i: int| 0 <= i < xd.len() implies !s.live.contains(#[trigger] xd[i]) by {
                assert(x[i] == xd[i]);
            }
            assert forall|i: int, j: int| 0 <= i < j < xd.len() implies xd[i] != xd[j] by {
                assert(x[i] == xd[i] && x[j] == xd[j]);
            }
        }
        lemma_define_fresh_list(s, d);
        let s1 = list_op(s, WireOp::Define, d);
        match e {
            WireListElement::Wire(t, w) => {
                let k = xd.len() as int;
                assert(x[k] == (t, w));
                assert(!s1.live.contains((t, w))) by {
                    if xd.contains((t, w)) {
                        let i = choose|i: int| 0 <= i < xd.len() && xd[i] == (t, w);
                        assert(x[i] == x[k]);
                    }
                }
                assert forall|p: (TypeId, WireId)|
                    #[trigger] list_op(s, WireOp::Define, wl).live.contains(p) <==> s.live.contains(p)
                        || x.contains(p) by {
                    if x.contains(p) {
                        let i = choose|i: int| 0 <= i < x.len() && x[i] == p;
                        if i < k {
                            assert(xd[i] == p);
                        }
                    }
                    if xd.contains(p) {
                        let i = choose|i: int| 0 <= i < xd.len() && xd[i] == p;
                        assert(x[i] == p);
                    }
                }
            },
            WireListElement::WireRange(t, first, last) => {
                let k = xd.len() as int;
                assert forall|w: WireId| first <= w <= last implies !s1.live.contains((t, w)) by {
                    let j = k + (w - first);
                    assert(x[j] == element_wires(e)[w - first]);
                    assert(x[j] == (t, w));
                    if xd.contains((t, w)) {
                        let i = choose|i: int| 0 <= i < xd.len() && xd[i] == (t, w);
                        assert(x[i] == x[j]);
                    }
                }
                lemma_define_fresh_range(s1, t, first as int, last as int);
                assert forall|p: (TypeId, WireId)|
                    #[trigger] list_op(s, WireOp::Define, wl).live.contains(p) <==> s.live.contains(p)
                        || x.contains(p) by {
                    if x.contains(p) {
                        let i = choose|i: int| 0 <= i < x.len() && x[i] == p;
                        if i < k {
                            assert(xd[i] == p);
                        } else {
                            assert(element_wires(e)[i - k] == p);
                        }
                    }
                    if xd.contains(p) {
                        let i = choose|i: int| 0 <= i < xd.len() && xd[i] == p;
                        assert(x[i] == p);
                    }
                    if p.0 == t && first <= p.1 <= last {
                        let j = k + (p.1 - first);
                        assert(x[j] == element_wires(e)[p.1 - first]);
                    }
                }
            },
        }
    }
}

/// Every gate of `gs` is clean in the state that the gates before it leave.
pub open spec fn clean_run(s: ValidatorState, gs: Seq<Gate>) -> bool
    decreases gs.len(),
{
    gs.len() == 0 || (clean_run(s, gs.drop_last()) && gate_clean(gates_step(s, gs.drop_last()), gs.last()))
}

proof fn lemma_clean_range(s: ValidatorState, op: WireOp, t: TypeId, lo: int, hi: int)
    requires
        0 <= lo,
        hi <= u64::MAX,
        op == WireOp::Reserve || op == WireOp::Free,
        forall|w: WireId| lo <= w <= hi ==> (s.live.contains((t, w)) <==> op == WireOp::Free),
    ensures
        range_op(s, op, t, lo, hi).violations == s.violations,
        range_op(s, op, t, lo, hi).types == s.types,
        range_op(s, op, t, lo, hi).is_arithmetic == s.is_arithmetic,
        range_op(s, op, t, lo, hi).as_prover == s.as_prover,
        range_op(s, op, t, lo, hi).public_queue == s.public_queue,
        range_op(s, op, t, lo, hi).private_queue == s.private_queue,
    decreases hi - lo + 1,
{
    if lo <= hi {
        let s1 = wire_op(s, op, t, lo as WireId);
        assert forall|w: WireId| lo + 1 <= w <= hi implies (s1.live.contains((t, w)) <==> op == WireOp::Free) by {
            assert(s.live.contains((t, w)) <==> op == WireOp::Free);
        }
        lemma_clean_range(s1, op, t, lo + 1, hi);
    }
}

/// A clean gate records no violation.
pub proof fn lemma_clean_gate(s: ValidatorState, g: Gate)
    requires
        gate_clean(s, g),
    ensures
        gate_step(s, g).violations == s.violations,
        gate_step(s, g).types == s.types,
        gate_step(s, g).is_arithmetic == s.is_arithmetic,
        gate_step(s, g).as_prover == s.as_prover,
{
    match g {
        Gate::New(t, first, last) => lemma_clean_range(s, WireOp::Reserve, t, first as int, last as int),
        Gate::Delete(t, first, last) => lemma_clean_range(s, WireOp::Free, t, first as int, last as int),
        Gate::Convert(o, i) => {
            lemma_use_live_list(s, i@);
            lemma_define_fresh_list(s, o@);
        },
        Gate::Call(n, o, i) => {
            lemma_use_live_list(s, i@);
            let s1 = call_consume(s, n@);
            assert(s1.live == s.live && s1.violations == s.violations);
            lemma_define_fresh_list(s1, o@);
        },
        Gate::AnonCall(o, i, p, w, _) => {
            lemma_use_live_list(s, i@);
            let s1 = consume(s, p as nat, w as nat, callee_anonymous());
            assert(s1.live == s.live && s1.violations == s.violations);
            lemma_define_fresh_list(s1, o@);
        },
        Gate::Switch(t, c, o, _, bs) => {
            lemma_branches_live(s, bs@);
            lemma_define_fresh_list(s, o@);
        },
        Gate::For(_, _, _, o, _) => lemma_define_fresh_list(s, o@),
        _ => {},
    }
}

proof fn lemma_declare_functions_frame(s: ValidatorState, fs: Seq<Function>)
    ensures
        declare_functions(s, fs).violations == s.violations,
        declare_functions(s, fs).types == s.types,
        declare_functions(s, fs).is_arithmetic == s.is_arithmetic,
        declare_functions(s, fs).as_prover == s.as_prover,
        declare_functions(s, fs).live == s.live,
        declare_functions(s, fs).public_queue == s.public_queue,
        declare_functions(s, fs).private_queue == s.private_queue,
    decreases fs.len(),
{
    if fs.len() > 0 {
        lemma_declare_functions_frame(s, fs.drop_last());
    }
}

/// Gates that are each clean in turn record no violation.
pub proof fn lemma_clean_run(s: ValidatorState, gs: Seq<Gate>)
    requires
        clean_run(s, gs),
    ensures
        gates_step(s, gs).violations == s.violations,
        gates_step(s, gs).types == s.types,
        gates_step(s, gs).is_arithmetic == s.is_arithmetic,
        gates_step(s, gs).as_prover == s.as_prover,
    decreases gs.len(),
{
    if gs.len() > 0 {
        lemma_clean_run(s, gs.drop_last());
        lemma_clean_gate(gates_step(s, gs.drop_last()), gs.last());
    }
}

/// A header that the validator accepts: characteristics above one (exactly
/// two under the boolean profile), degree one, a known profile, a version
/// of the form `<major>.<minor>.<patch>`.
pub open spec fn header_ok(h: Header) -> bool {
    &&& forall|i: int| 0 <= i < h.types@.len() ==> le_nat((#[trigger] h.types@[i])@) > 1
    &&& h.field_degree == 1
    &&& h.profile@ == PROFILE_ARITHMETIC@ || (h.profile@ == PROFILE_BOOLEAN@ && forall|i: int|
        0 <= i < h.types@.len() ==> le_nat((#[trigger] h.types@[i])@) == 2)
    &&& is_version(h.version@)
}

/// Two headers that a validator takes as the same.
pub open spec fn same_header(a: Header, b: Header) -> bool {
    types_view(a.types@) == types_view(b.types@) && a.field_degree == b.field_degree && a.profile@ == b.profile@
        && a.version@ == b.version@
}

proof fn lemma_characteristics_ok(s: ValidatorState, types: Seq<Seq<u8>>, two_only: bool)
    requires
        forall|i: int| 0 <= i < types.len()
            ==> if two_only { le_nat(#[trigger] types[i]) == 2 } else { le_nat(types[i]) > 1 },
    ensures
        characteristic_checks(s, types, two_only) == s,
    decreases types.len(),
{
    if types.len() > 0 {
        lemma_characteristics_ok(s, types.drop_last(), two_only);
        assert(types.last() == types[types.len() - 1]);
    }
}

proof fn lemma_header_ok(s: ValidatorState, h: Header)
    requires
        header_ok(h),
        s.got_header ==> s.types == types_view(h.types@) && s.degree == h.field_degree && s.profile == h.profile@
            && s.version == h.version@,
    ensures
        header_step(s, h).degree == h.field_degree,
        header_step(s, h).profile == h.profile@,
        header_step(s, h).version == h.version@,
        header_step(s, h).violations == s.violations,
        header_step(s, h).got_header,
        header_step(s, h).types == (if s.got_header { s.types } else { types_view(h.types@) }),
        header_step(s, h).as_prover == s.as_prover,
        header_step(s, h).live == s.live,
        header_step(s, h).public_queue == s.public_queue,
        header_step(s, h).private_queue == s.private_queue,
        s.got_header ==> header_step(s, h).is_arithmetic == s.is_arithmetic,
{
    let types = types_view(h.types@);
    if !s.got_header {
        let s0 = ValidatorState {
            got_header: true,
            types,
            degree: h.field_degree,
            profile: h.profile@,
            version: h.version@,
            is_arithmetic: h.profile@ == PROFILE_ARITHMETIC@,
            ..s
        };
        assert forall|i: int| 0 <= i < types.len() implies le_nat(#[trigger] types[i]) > 1 by {
            assert(types[i] == h.types@[i]@);
        }
        lemma_characteristics_ok(s0, types, false);
        if h.profile@ != PROFILE_ARITHMETIC@ {
            assert forall|i: int| 0 <= i < types.len() implies le_nat(#[trigger] types[i]) == 2 by {
                assert(types[i] == h.types@[i]@);
            }
            lemma_characteristics_ok(s0, types, true);
        }
    }
}

proof fn lemma_values_ok(s: ValidatorState, t: nat, vals: Seq<Value>, public: bool)
    requires
        forall|i: int| 0 <= i < vals.len() ==> in_field(s, t, (#[trigger] vals[i])@),
    ensures
        values_step(s, t, vals, public).violations == s.violations,
        values_step(s, t, vals, public).types == s.types,
        values_step(s, t, vals, public).live == s.live,
        values_step(s, t, vals, public).as_prover == s.as_prover,
        values_step(s, t, vals, public).is_arithmetic == s.is_arithmetic,
        values_step(s, t, vals, public).got_header == s.got_header,
        values_step(s, t, vals, public).profile == s.profile,
        values_step(s, t, vals, public).version == s.version,
        values_step(s, t, vals, public).degree == s.degree,
    decreases vals.len(),
{
    if vals.len() > 0 {
        lemma_values_ok(s, t, vals.drop_last(), public);
        assert(vals.last() == vals[vals.len() - 1]);
    }
}

/// Every value of every type id lies in the field of that type.
pub open spec fn inputs_in_field(types: Seq<Seq<u8>>, ins: Seq<Inputs>) -> bool {
    forall|t: int, i: int|
        0 <= t < ins.len() && 0 <= i < ins[t].values@.len() ==> t < types.len()
            && (#[trigger] ins[t].values@[i])@.len() > 0
            && le_nat(ins[t].values@[i]@) < le_nat(types[t])
}

proof fn lemma_inputs_ok(s: ValidatorState, ins: Seq<Inputs>, public: bool)
    requires
        inputs_in_field(s.types, ins),
    ensures
        inputs_step(s, ins, public).violations == s.violations,
        inputs_step(s, ins, public).types == s.types,
        inputs_step(s, ins, public).live == s.live,
        inputs_step(s, ins, public).as_prover == s.as_prover,
        inputs_step(s, ins, public).is_arithmetic == s.is_arithmetic,
        inputs_step(s, ins, public).got_header == s.got_header,
        inputs_step(s, ins, public).profile == s.profile,
        inputs_step(s, ins, public).version == s.version,
        inputs_step(s, ins, public).degree == s.degree,
{
    lemma_inputs_prefix_ok(s, ins, ins.len(), public);
    assert(ins.take(ins.len() as int) =~= ins);
}

proof fn lemma_inputs_prefix_ok(s: ValidatorState, ins: Seq<Inputs>, n: nat, public: bool)
    requires
        inputs_in_field(s.types, ins),
        n <= ins.len(),
    ensures
        inputs_step(s, ins.take(n as int), public).violations == s.violations,
        inputs_step(s, ins.take(n as int), public).types == s.types,
        inputs_step(s, ins.take(n as int), public).live == s.live,
        inputs_step(s, ins.take(n as int), public).as_prover == s.as_prover,
        inputs_step(s, ins.take(n as int), public).is_arithmetic == s.is_arithmetic,
        inputs_step(s, ins.take(n as int), public).got_header == s.got_header,
        inputs_step(s, ins.take(n as int), public).profile == s.profile,
        inputs_step(s, ins.take(n as int), public).version == s.version,
        inputs_step(s, ins.take(n as int), public).degree == s.degree,
    decreases n,
{
    if n > 0 {
        let t = n - 1;
        lemma_inputs_prefix_ok(s, ins, (n - 1) as nat, public);
        let p = ins.take(n as int);
        assert(p.drop_last() =~= ins.take(n - 1));
        assert(p.last() == ins[t]);
        let s1 = inputs_step(s, ins.take(n - 1), public);
        assert forall|i: int| 0 <= i < ins[t].values@.len() implies in_field(s1, t as nat, (#[trigger] ins[t].values@[i])@) by {
        }
        lemma_values_ok(s1, t as nat, ins[t].values@, public);
    } else {
        assert(ins.take(0) =~= Seq::<Inputs>::empty());
    }
}

/// A well-formed stream validates without a violation: one header that the
/// validator accepts, repeated in every message; every value in its field;
/// every gate clean in turn (wires defined before use, assigned once, freed
/// while live); and every value consumed by an input gate.
pub proof fn lemma_well_formed_stream(public: PublicInputs, private: PrivateInputs, relation: Relation)
    requires
        header_ok(public.header),
        same_header(private.header, public.header),
        same_header(relation.header, public.header),
        inputs_in_field(types_view(public.header.types@), public.inputs@),
        inputs_in_field(types_view(public.header.types@), private.inputs@),
        clean_run(
            relation_start(private_inputs_step(public_inputs_step(initial_state(true), public), private), relation),
            relation.gates@,
        ),
        relation_step(private_inputs_step(public_inputs_step(initial_state(true), public), private), relation).public_queue
            == 0,
        relation_step(private_inputs_step(public_inputs_step(initial_state(true), public), private), relation).private_queue
            == 0,
    ensures
        final_violations(
            relation_step(private_inputs_step(public_inputs_step(initial_state(true), public), private), relation),
        ) == Seq::<Seq<char>>::empty(),
{
    let s0 = initial_state(true);
    lemma_header_ok(s0, public.header);
    let s1 = header_step(s0, public.header);
    lemma_inputs_ok(s1, public.inputs@, true);
    let s2 = public_inputs_step(s0, public);
    assert(s2.types == types_view(public.header.types@));
    assert(header_ok(private.header)) by {
        assert forall|i: int| 0 <= i < private.header.types@.len() implies le_nat((#[trigger] private.header.types@[i])@) > 1 by {
            assert(types_view(private.header.types@)[i] == types_view(public.header.types@)[i]);
        }
        if private.header.profile@ != PROFILE_ARITHMETIC@ {
            assert forall|i: int| 0 <= i < private.header.types@.len() implies le_nat((#[trigger] private.header.types@[i])@) == 2 by {
                assert(types_view(private.header.types@)[i] == types_view(public.header.types@)[i]);
            }
        }
    }
    lemma_header_ok(s2, private.header);
    let s3 = header_step(s2, private.header);
    lemma_inputs_ok(s3, private.inputs@, false);
    let s4 = private_inputs_step(s2, private);
    assert(header_ok(relation.header)) by {
        assert forall|i: int| 0 <= i < relation.header.types@.len() implies le_nat((#[trigger] relation.header.types@[i])@) > 1 by {
            assert(types_view(relation.header.types@)[i] == types_view(public.header.types@)[i]);
        }
        if relation.header.profile@ != PROFILE_ARITHMETIC@ {
            assert forall|i: int| 0 <= i < relation.header.types@.len() implies le_nat((#[trigger] relation.header.types@[i])@) == 2 by {
                assert(types_view(relation.header.types@)[i] == types_view(public.header.types@)[i]);
            }
        }
    }
    lemma_header_ok(s4, relation.header);
    lemma_declare_functions_frame(header_step(s4, relation.header), relation.functions@);
    lemma_clean_run(relation_start(s4, relation), relation.gates@);
}

/// A well-formed stream for the verifier, who sees no private inputs,
/// validates without a violation: one accepted header, repeated; public
/// values in their fields; every gate clean in turn; every public value
/// consumed.
pub proof fn lemma_well_formed_verifier_stream(public: PublicInputs, relation: Relation)
    requires
        header_ok(public.header),
        same_header(relation.header, public.header),
        inputs_in_field(types_view(public.header.types@), public.inputs@),
        clean_run(relation_start(public_inputs_step(initial_state(false), public), relation), relation.gates@),
        relation_step(public_inputs_step(initial_state(false), public), relation).public_queue == 0,
    ensures
        final_violations(relation_step(public_inputs_step(initial_state(false), public), relation))
            == Seq::<Seq<char>>::empty(),
{
    let s0 = initial_state(false);
    lemma_header_ok(s0, public.header);
    lemma_inputs_ok(header_step(s0, public.header), public.inputs@, true);
    let s2 = public_inputs_step(s0, public);
    assert(header_ok(relation.header)) by {
        assert forall|i: int| 0 <= i < relation.header.types@.len() implies le_nat((#[trigger] relation.header.types@[i])@) > 1 by {
            assert(types_view(relation.header.types@)[i] == types_view(public.header.types@)[i]);
        }
        if relation.header.profile@ != PROFILE_ARITHMETIC@ {
            assert forall|i: int| 0 <= i < relation.header.types@.len() implies le_nat((#[trigger] relation.header.types@[i])@) == 2 by {
                assert(types_view(relation.header.types@)[i] == types_view(public.header.types@)[i]);
            }
        }
    }
    lemma_header_ok(s2, relation.header);
    lemma_declare_functions_frame(header_step(s2, relation.header), relation.functions@);
    lemma_clean_run(relation_start(s2, relation), relation.gates@);
}

/// A description, for people, of what the validator checks.
pub const IMPLEMENTED_CHECKS: &'static str = "
Here is the list of implemented semantic/syntactic checks:

Header Validation
 - Ensure that the characteristic is strictly greater than 1.
 - Ensure that the field degree is exactly 1.
 - Ensure that the version string has the format <major>.<minor>.<patch>.
 - Ensure that the profile name is either arithmetic or boolean.
     - If boolean, checks that the field characteristic is exactly 2.
 - Ensure header messages are coherent.
     - Profile names should be identical.
     - Versions should be identical.
     - Field characteristic and field degree should be the same.

Inputs Validation (public / private)
 - Ensure that public input gates are given a value in public input messages.
 - Ensure that private input gates are given a value in private input messages (prover only).
 - Ensure that no unused public or private values are given.
 - Ensure that each value encodes an element of its field: it is strictly smaller than the characteristic.

Gates Validation
 - Ensure that gates used are coherent with the profile.
   - Not/And/Xor are not allowed with the arithmetic profile.
   - Add/AddConstant/Mul/MulConstant are not allowed with the boolean profile.
 - Ensure constants given in AddConstant/MulConstant are actual field elements.
 - Ensure input wires of gates map to an already set variable.
 - Enforce Single Static Assignment by checking that the same wire is used only once as an output wire.
";

fn total_of(cs: &Vec<Count>) -> (r: u128)
    ensures
        r == total_count(cs@),
{
    let mut total: u128 = 0;
    let mut i: usize = 0;
    while i < cs.len()
        invariant
            i <= cs.len(),
            total == total_count(cs@.take(i as int)),
            total_count(cs@.take(i as int)) <= i * 0xffff_ffff_ffff_ffff,
        decreases cs.len() - i,
    {
        assert(cs@.take(i + 1).drop_last() =~= cs@.take(i as int));
        total = total + cs[i].count as u128;
        i += 1;
    }
    assert(cs@.take(cs.len() as int) =~= cs@);
    total
}

/// The messages of a stream.
pub enum Message {
    Instance(PublicInputs),
    Witness(PrivateInputs),
    Relation(Relation),
}

/// Checks a stream of messages for well-formedness: consistent headers,
/// values inside the field, single assignment, liveness of every wire read,
/// and one input value for each input gate. It never stops early: each rule
/// broken is recorded as one violation, in the order met.
pub struct Validator {
    as_prover: bool,
    got_header: bool,
    profile: String,
    version: String,
    is_arithmetic: bool,
    types: Vec<Value>,
    degree: u32,
    public_queue: u64,
    private_queue: u64,
    live: LiveWires,
    wire_bound: u64,
    signatures: Vec<(String, u128, u128)>,
    violations: Vec<String>,
}

pub open spec fn signatures_view(v: Seq<(String, u128, u128)>) -> Seq<(Seq<char>, nat, nat)> {
    v.map_values(|e: (String, u128, u128)| (e.0@, e.1 as nat, e.2 as nat))
}

pub open spec fn texts(v: Seq<String>) -> Seq<Seq<char>> {
    v.map_values(|s: String| s@)
}

impl View for Validator {
    type V = ValidatorState;

    closed spec fn view(&self) -> ValidatorState {
        ValidatorState {
            as_prover: self.as_prover,
            got_header: self.got_header,
            profile: self.profile@,
            version: self.version@,
            is_arithmetic: self.is_arithmetic,
            types: types_view(self.types@),
            degree: self.degree,
            public_queue: self.public_queue,
            private_queue: self.private_queue,
            live: self.live@,
            wire_bound: self.wire_bound,
            signatures: signatures_view(self.signatures@),
            violations: texts(self.violations@),
        }
    }
}

impl Validator {
    fn new(as_prover: bool) -> (r: Validator)
        ensures
            r@ == initial_state(as_prover),
    {
        let r = Validator {
            as_prover,
            got_header: false,
            profile: String::new(),
            version: String::new(),
            is_arithmetic: false,
            types: Vec::new(),
            degree: 0,
            public_queue: 0,
            private_queue: 0,
            live: LiveWires::new(),
            wire_bound: 0,
            signatures: Vec::new(),
            violations: Vec::new(),
        };
        assert(r@.types =~= Seq::<Seq<u8>>::empty());
        assert(r@.signatures =~= Seq::<(Seq<char>, nat, nat)>::empty());
        assert(r@.violations =~= Seq::<Seq<char>>::empty());
        r
    }

    /// A validator for the verifier's side, which sees no private inputs.
    pub fn new_as_verifier() -> (r: Validator)
        ensures
            r@ == initial_state(false),
    {
        Validator::new(false)
    }

    /// A validator for the prover's side.
    pub fn new_as_prover() -> (r: Validator)
        ensures
            r@ == initial_state(true),
    {
        Validator::new(true)
    }

    fn violate(&mut self, m: String)
        ensures
            final(self)@ == violate(old(self)@, m@),
    {
        let ghost before = self.violations@;
        self.violations.push(m);
        assert(texts(self.violations@) =~= texts(before).push(m@));
    }

    fn declare(&mut self, t: TypeId, w: WireId)
        ensures
            final(self)@ == declare(old(self)@, t, w),
    {
        self.live.insert(t, w);
        if w >= self.wire_bound {
            self.wire_bound = if w == u64::MAX {
                w
            } else {
                w + 1
            };
        }
    }

    fn use_wire(&mut self, t: TypeId, w: WireId)
        ensures
            final(self)@ == use_wire(old(self)@, t, w),
    {
        if !self.live.contains(t, w) {
            if self.as_prover {
                self.violate(violations::undefined(w));
            }
            self.declare(t, w);
        }
    }

    fn define_wire(&mut self, t: TypeId, w: WireId)
        ensures
            final(self)@ == define_wire(old(self)@, t, w),
    {
        if self.live.contains(t, w) {
            self.violate(violations::ssa(w));
        }
        self.declare(t, w);
    }

    fn reserve_wire(&mut self, t: TypeId, w: WireId)
        ensures
            final(self)@ == reserve_wire(old(self)@, t, w),
    {
        if self.live.contains(t, w) {
            self.violate(violations::ssa(w));
        }
        if w >= self.wire_bound {
            self.wire_bound = if w == u64::MAX {
                w
            } else {
                w + 1
            };
        }
    }

    fn free_wire(&mut self, t: TypeId, w: WireId)
        ensures
            final(self)@ == free_wire(old(self)@, t, w),
    {
        if self.live.contains(t, w) {
            self.live.remove(t, w);
        } else {
            self.violate(violations::undefined(w));
            if w >= self.wire_bound {
                self.wire_bound = if w == u64::MAX {
                    w
                } else {
                    w + 1
                };
            }
        }
    }

    fn consume(&mut self, p: u128, q: u128, callee: String)
        ensures
            final(self)@ == consume(old(self)@, p as nat, q as nat, callee@),
    {
        if (self.public_queue as u128) >= p {
            self.public_queue = (self.public_queue as u128 - p) as u64;
        } else {
            self.violate(violations::short_public(callee.clone()));
            self.public_queue = 0;
        }
        if self.as_prover {
            if (self.private_queue as u128) >= q {
                self.private_queue = (self.private_queue as u128 - q) as u64;
            } else {
                self.violate(violations::short_private(callee));
                self.private_queue = 0;
            }
        }
    }

    fn find_signature(&self, name: &String) -> (r: Option<(u128, u128)>)
        ensures
            (match r {
                Some((p, q)) => signature_of(self@.signatures, name@) == Some::<(nat, nat)>((p as nat, q as nat)),
                None => signature_of(self@.signatures, name@) is None,
            }),
    {
        let sigs = &self.signatures;
        let mut i: usize = sigs.len();
        assert(sigs@.take(i as int) =~= sigs@);
        while i > 0
            invariant
                i <= sigs.len(),
                sigs == &self.signatures,
                signature_of(signatures_view(sigs@), name@) == signature_of(signatures_view(sigs@.take(i as int)), name@),
            decreases i,
        {
            let ghost v = signatures_view(sigs@.take(i as int));
            assert(v.drop_last() =~= signatures_view(sigs@.take(i - 1)));
            if sigs[i - 1].0 == *name {
                return Some((sigs[i - 1].1, sigs[i - 1].2));
            }
            i -= 1;
        }
        assert(signatures_view(sigs@.take(0)) =~= Seq::<(Seq<char>, nat, nat)>::empty());
        None
    }

    fn call_consume(&mut self, name: &String)
        ensures
            final(self)@ == call_consume(old(self)@, name@),
    {
        match self.find_signature(name) {
            Some((p, q)) => self.consume(p, q, violations::callee_text(name)),
            None => {},
        }
    }

    fn declare_function(&mut self, f: &Function)
        ensures
            final(self)@ == declare_function(old(self)@, *f),
    {
        let p = total_of(&f.public_count);
        let q = total_of(&f.private_count);
        let ghost before = self.signatures@;
        self.signatures.push((f.name.clone(), p, q));
        assert(signatures_view(self.signatures@) =~= signatures_view(before).push(
            (f.name@, total_count(f.public_count@), total_count(f.private_count@)),
        ));
    }

    fn wire_op(&mut self, op: WireOp, t: TypeId, w: WireId)
        ensures
            final(self)@ == wire_op(old(self)@, op, t, w),
    {
        match op {
            WireOp::Use => self.use_wire(t, w),
            WireOp::Define => self.define_wire(t, w),
            WireOp::Reserve => self.reserve_wire(t, w),
            WireOp::Free => self.free_wire(t, w),
        }
    }

    fn range_op(&mut self, op: WireOp, t: TypeId, first: WireId, last: WireId)
        ensures
            final(self)@ == range_op(old(self)@, op, t, first as int, last as int),
    {
        let ghost s0 = self@;
        if first > last {
            return;
        }
        let mut w: WireId = first;
        loop
            invariant_except_break
                first <= w <= last,
                range_op(self@, op, t, w as int, last as int) == range_op(s0, op, t, first as int, last as int),
            ensures
                self@ == range_op(s0, op, t, first as int, last as int),
            decreases last - w,
        {
            let ghost before = self@;
            self.wire_op(op, t, w);
            assert(range_op(before, op, t, w as int, last as int) == range_op(self@, op, t, w + 1, last as int));
            if w == last {
                break;
            }
            w += 1;
        }
    }

    fn element_op(&mut self, op: WireOp, e: &WireListElement)
        ensures
            final(self)@ == element_op(old(self)@, op, *e),
    {
        match e {
            WireListElement::Wire(t, w) => self.wire_op(op, *t, *w),
            WireListElement::WireRange(t, first, last) => self.range_op(op, *t, *first, *last),
        }
    }

    fn list_op(&mut self, op: WireOp, wl: &WireList)
        ensures
            final(self)@ == list_op(old(self)@, op, wl@),
    {
        let ghost s0 = self@;
        let mut i: usize = 0;
        while i < wl.len()
            invariant
                i <= wl.len(),
                self@ == list_op(s0, op, wl@.take(i as int)),
            decreases wl.len() - i,
        {
            assert(wl@.take(i + 1).drop_last() =~= wl@.take(i as int));
            self.element_op(op, &wl[i]);
            i += 1;
        }
        assert(wl@.take(wl.len() as int) =~= wl@);
    }

    fn branches_use(&mut self, bs: &Vec<CaseInvoke>)
        ensures
            final(self)@ == branches_use(old(self)@, bs@),
    {
        let ghost s0 = self@;
        let mut i: usize = 0;
        while i < bs.len()
            invariant
                i <= bs.len(),
                self@ == branches_use(s0, bs@.take(i as int)),
            decreases bs.len() - i,
        {
            assert(bs@.take(i + 1).drop_last() =~= bs@.take(i as int));
            match &bs[i] {
                CaseInvoke::AbstractGateCall(_, inputs) => self.list_op(WireOp::Use, inputs),
                CaseInvoke::AbstractAnonCall(inputs, _, _, _) => self.list_op(WireOp::Use, inputs),
            }
            i += 1;
        }
        assert(bs@.take(bs.len() as int) =~= bs@);
    }

    fn check_value(&mut self, t: usize, v: &Value, subject: String)
        ensures
            final(self)@ == check_value(old(self)@, t as nat, v@, subject@),
    {
        if t >= self.types.len() {
            self.violate(violations::undeclared_type(t as u64));
            return;
        }
        let characteristic = &self.types[t];
        let too_large = crate::field::compare_values(v, characteristic) >= 0;
        let m = if too_large {
            Some(violations::not_in_field(&subject, v, characteristic))
        } else {
            None
        };
        if v.len() == 0 {
            self.violate(violations::empty(subject));
        }
        if let Some(m) = m {
            self.violate(m);
        }
    }

    fn require_arithmetic(&mut self, name: &str)
        ensures
            final(self)@ == require_arithmetic(old(self)@, name@),
    {
        if !self.is_arithmetic {
            self.violate(violations::arithmetic_in_boolean(name));
        }
    }

    fn require_boolean(&mut self, name: &str)
        ensures
            final(self)@ == require_boolean(old(self)@, name@),
    {
        if self.is_arithmetic {
            self.violate(violations::boolean_in_arithmetic(name));
        }
    }

    fn binary_gate(&mut self, t: TypeId, o: WireId, l: WireId, r: WireId)
        ensures
            final(self)@ == binary_gate(old(self)@, t, o, l, r),
    {
        self.use_wire(t, l);
        self.use_wire(t, r);
        self.define_wire(t, o);
    }

    fn ingest_gate(&mut self, gate: &Gate)
        ensures
            final(self)@ == gate_step(old(self)@, *gate),
    {
        match gate {
            Gate::Constant(t, o, v) => {
                self.check_value(*t as usize, v, violations::text("constant of a Constant"));
                self.define_wire(*t, *o);
            },
            Gate::AssertZero(t, i) => self.use_wire(*t, *i),
            Gate::Copy(t, o, i) => {
                self.use_wire(*t, *i);
                self.define_wire(*t, *o);
            },
            Gate::Add(t, o, l, r) => {
                self.require_arithmetic("Add");
                self.binary_gate(*t, *o, *l, *r);
            },
            Gate::Mul(t, o, l, r) => {
                self.require_arithmetic("Mul");
                self.binary_gate(*t, *o, *l, *r);
            },
            Gate::AddConstant(t, o, i, v) => {
                self.require_arithmetic("AddConstant");
                self.check_value(*t as usize, v, violations::subject_add(*o));
                self.use_wire(*t, *i);
                self.define_wire(*t, *o);
            },
            Gate::MulConstant(t, o, i, v) => {
                self.require_arithmetic("MulConstant");
                self.check_value(*t as usize, v, violations::subject_mul(*o));
                self.use_wire(*t, *i);
                self.define_wire(*t, *o);
            },
            Gate::And(t, o, l, r) => {
                self.require_boolean("And");
                self.binary_gate(*t, *o, *l, *r);
            },
            Gate::Xor(t, o, l, r) => {
                self.require_boolean("Xor");
                self.binary_gate(*t, *o, *l, *r);
            },
            Gate::Not(t, o, i) => {
                self.require_boolean("Not");
                self.use_wire(*t, *i);
                self.define_wire(*t, *o);
            },
            Gate::PublicInput(t, o) => {
                self.define_wire(*t, *o);
                if self.public_queue > 0 {
                    self.public_queue = self.public_queue - 1;
                } else {
                    self.violate(violations::no_public_value(*o));
                }
            },
            Gate::PrivateInput(t, o) => {
                self.define_wire(*t, *o);
                if self.as_prover {
                    if self.private_queue > 0 {
                        self.private_queue = self.private_queue - 1;
                    } else {
                        self.violate(violations::no_private_value(*o));
                    }
                }
            },
            Gate::New(t, first, last) => self.range_op(WireOp::Reserve, *t, *first, *last),
            Gate::Delete(t, first, last) => self.range_op(WireOp::Free, *t, *first, *last),
            Gate::Convert(o, i) => {
                self.list_op(WireOp::Use, i);
                self.list_op(WireOp::Define, o);
            },
            Gate::Call(n, o, i) => {
                self.list_op(WireOp::Use, i);
                self.call_consume(n);
                self.list_op(WireOp::Define, o);
            },
            Gate::AnonCall(o, i, p, w, _) => {
                self.list_op(WireOp::Use, i);
                self.consume(*p as u128, *w as u128, violations::text("an anonymous call"));
                self.list_op(WireOp::Define, o);
            },
            Gate::Switch(t, c, o, _, bs) => {
                self.use_wire(*t, *c);
                self.branches_use(bs);
                self.list_op(WireOp::Define, o);
            },
            Gate::For(_, _, _, o, _) => self.list_op(WireOp::Define, o),
        }
    }

    fn characteristic_checks(&mut self, types: &Vec<Value>, two_only: bool)
        ensures
            final(self)@ == characteristic_checks(old(self)@, types_view(types@), two_only),
    {
        let ghost s0 = self@;
        let mut i: usize = 0;
        while i < types.len()
            invariant
                i <= types.len(),
                self@ == characteristic_checks(s0, types_view(types@.take(i as int)), two_only),
            decreases types.len() - i,
        {
            assert(types_view(types@.take(i + 1)).drop_last() =~= types_view(types@.take(i as int)));
            assert(types_view(types@.take(i + 1)).last() == types@[i as int]@);
            proof {
                lemma_le_nat_single(1);
                lemma_le_nat_single(2);
            }
            if two_only {
                let two: Vec<u8> = vec![2u8];
                assert(two@ =~= seq![2u8]);
                if crate::field::compare_values(&types[i], &two) != 0 {
                    self.violate(violations::text("With profile 'boolean', the field characteristic can only be 2."));
                }
            } else {
                let one: Vec<u8> = vec![1u8];
                assert(one@ =~= seq![1u8]);
                if crate::field::compare_values(&types[i], &one) <= 0 {
                    self.violate(violations::text("The field_characteristic should be > 1"));
                }
            }
            i += 1;
        }
        assert(types@.take(types.len() as int) =~= types@);
    }

    fn same_characteristics(&self, types: &Vec<Value>) -> (r: bool)
        ensures
            r == same_characteristics(self@.types, types_view(types@)),
    {
        if self.types.len() != types.len() {
            return false;
        }
        let mut i: usize = 0;
        while i < types.len()
            invariant
                i <= types.len() == self.types.len(),
                forall|j: int| 0 <= j < i ==> le_nat(#[trigger] self.types@[j]@) == le_nat(types@[j]@),
            decreases types.len() - i,
        {
            if crate::field::compare_values(&self.types[i], &types[i]) != 0 {
                assert(self@.types[i as int] == self.types@[i as int]@);
                assert(types_view(types@)[i as int] == types@[i as int]@);
                return false;
            }
            i += 1;
        }
        assert forall|j: int| 0 <= j < self@.types.len() implies le_nat(#[trigger] self@.types[j]) == le_nat(types_view(types@)[j]) by {
            assert(self@.types[j] == self.types@[j]@);
            assert(types_view(types@)[j] == types@[j]@);
        }
        true
    }

    fn ingest_header(&mut self, h: &Header)
        ensures
            final(self)@ == header_step(old(self)@, *h),
    {
        if self.got_header {
            if !self.same_characteristics(&h.types) {
                self.violate(violations::text("The field_characteristic field is not consistent across headers."));
            }
            if self.degree != h.field_degree {
                self.violate(violations::text("The field_degree is not consistent across headers."));
            }
            if self.profile != h.profile {
                self.violate(violations::text("The profile name is not consistent across headers."));
            }
            if self.version != h.version {
                self.violate(violations::text("The profile version is not consistent across headers."));
            }
        } else {
            self.got_header = true;
            self.types = h.types.clone();
            proof {
                assert(types_view(self.types@) =~= types_view(h.types@)) by {
                    assert forall|i: int| 0 <= i < self.types@.len() implies #[trigger] self.types@[i]@ == h.types@[i]@ by {
                        assert(vstd::pervasive::cloned(h.types@[i], self.types@[i]));
                    }
                }
            }
            self.degree = h.field_degree;
            self.profile = h.profile.clone();
            self.version = h.version.clone();
            let arithmetic = h.profile == violations::text(PROFILE_ARITHMETIC);
            self.is_arithmetic = arithmetic;
            self.characteristic_checks(&h.types, false);
            if h.field_degree != 1 {
                self.violate(violations::text("field_degree must be = 1"));
            }
            if arithmetic {
            } else if h.profile == violations::text(PROFILE_BOOLEAN) {
                self.characteristic_checks(&h.types, true);
            } else {
                self.violate(violations::text("The profile name should match either 'arithmetic' or 'boolean'."));
            }
            if !crate::field::is_version_string(h.version.as_str()) {
                self.violate(violations::text("The profile version should match the following format <major>.<minor>.<patch>."));
            }
        }
    }

    fn values_step(&mut self, t: usize, vals: &Vec<Value>, public: bool)
        ensures
            final(self)@ == values_step(old(self)@, t as nat, vals@, public),
    {
        let ghost s0 = self@;
        let mut i: usize = 0;
        while i < vals.len()
            invariant
                i <= vals.len(),
                self@ == values_step(s0, t as nat, vals@.take(i as int), public),
            decreases vals.len() - i,
        {
            assert(vals@.take(i + 1).drop_last() =~= vals@.take(i as int));
            let v = &vals[i];
            if public {
                self.check_value(t, v, violations::subject_public(v));
                self.public_queue = if self.public_queue == u64::MAX {
                    u64::MAX
                } else {
                    self.public_queue + 1
                };
            } else {
                self.check_value(t, v, violations::subject_private(v));
                self.private_queue = if self.private_queue == u64::MAX {
                    u64::MAX
                } else {
                    self.private_queue + 1
                };
            }
            i += 1;
        }
        assert(vals@.take(vals.len() as int) =~= vals@);
    }

    fn inputs_step(&mut self, ins: &Vec<Inputs>, public: bool)
        ensures
            final(self)@ == inputs_step(old(self)@, ins@, public),
    {
        let ghost s0 = self@;
        let mut i: usize = 0;
        while i < ins.len()
            invariant
                i <= ins.len(),
                self@ == inputs_step(s0, ins@.take(i as int), public),
            decreases ins.len() - i,
        {
            assert(ins@.take(i + 1).drop_last() =~= ins@.take(i as int));
            self.values_step(i, &ins[i].values, public);
            i += 1;
        }
        assert(ins@.take(ins.len() as int) =~= ins@);
    }

    /// Checks a message of public input values and queues them for the
    /// public input gates.
    pub fn ingest_instance(&mut self, instance: &PublicInputs)
        ensures
            final(self)@ == public_inputs_step(old(self)@, *instance),
    {
        self.ingest_header(&instance.header);
        self.inputs_step(&instance.inputs, true);
    }

    /// Checks a message of private input values and queues them for the
    /// private input gates; as verifier the message itself is a violation.
    pub fn ingest_witness(&mut self, witness: &PrivateInputs)
        ensures
            final(self)@ == private_inputs_step(old(self)@, *witness),
    {
        if !self.as_prover {
            self.violate(violations::text("As verifier, got an unexpected Witness message."));
        }
        self.ingest_header(&witness.header);
        self.inputs_step(&witness.inputs, false);
    }

    /// Checks the gates of a relation, in order.
    pub fn ingest_relation(&mut self, relation: &Relation)
        ensures
            final(self)@ == relation_step(old(self)@, *relation),
    {
        self.ingest_header(&relation.header);
        let ghost h0 = self@;
        let fs = &relation.functions;
        let mut k: usize = 0;
        while k < fs.len()
            invariant
                k <= fs.len(),
                self@ == declare_functions(h0, fs@.take(k as int)),
            decreases fs.len() - k,
        {
            assert(fs@.take(k + 1).drop_last() =~= fs@.take(k as int));
            self.declare_function(&fs[k]);
            k += 1;
        }
        assert(fs@.take(fs.len() as int) =~= fs@);
        let ghost s0 = self@;
        let gates = &relation.gates;
        let mut i: usize = 0;
        while i < gates.len()
            invariant
                i <= gates.len(),
                self@ == gates_step(s0, gates@.take(i as int)),
            decreases gates.len() - i,
        {
            assert(gates@.take(i + 1).drop_last() =~= gates@.take(i as int));
            self.ingest_gate(&gates[i]);
            i += 1;
        }
        assert(gates@.take(gates.len() as int) =~= gates@);
    }

    pub fn ingest_message(&mut self, msg: &Message)
        ensures
            final(self)@ == match *msg {
                Message::Instance(i) => public_inputs_step(old(self)@, i),
                Message::Witness(w) => private_inputs_step(old(self)@, w),
                Message::Relation(r) => relation_step(old(self)@, r),
            },
    {
        match msg {
            Message::Instance(i) => self.ingest_instance(i),
            Message::Witness(w) => self.ingest_witness(w),
            Message::Relation(r) => self.ingest_relation(r),
        }
    }

    /// What the validator checks, as text.
    pub fn implemented_checks() -> (r: &'static str)
        ensures
            r == IMPLEMENTED_CHECKS,
    {
        IMPLEMENTED_CHECKS
    }

    /// The first wire id above every wire declared so far (saturating): a
    /// safe start for fresh temporary wires.
    pub fn temporary_wire_start(&self) -> (r: u64)
        ensures
            r == self@.wire_bound,
    {
        self.wire_bound
    }

    /// Ends the run: a surplus of unconsumed public (or, as prover, private)
    /// values is one more violation each; then all violations, in order.
    pub fn get_violations(self) -> (r: Vec<String>)
        ensures
            texts(r@) == final_violations(self@),
    {
        let mut v = self;
        let q = v.public_queue;
        if q > 0 {
            v.violate(violations::too_many_public(q));
        }
        let p = v.private_queue;
        if v.as_prover && p > 0 {
            v.violate(violations::too_many_private(p));
        }
        v.violations
    }
}

} // verus!
