//! Gates of the IR, wire lists, and the renumbering of a function's output wires.
use vstd::prelude::*;

use crate::{TypeId, Value, WireId};

verus! {

/// One element of a wire list: a single wire, or an inclusive range.
#[derive(Clone, Copy, Debug, PartialEq, Eq, Structural)]
pub enum WireListElement {
    /// Wire(type_id, id)
    Wire(TypeId, WireId),
    /// WireRange(type_id, first, last), both ends included.
    WireRange(TypeId, WireId, WireId),
}

pub type WireList = Vec<WireListElement>;

/// One branch of a `Switch`.
#[derive(Debug, PartialEq, Eq)]
pub enum CaseInvoke {
    /// AbstractGateCall(function name, input wires)
    AbstractGateCall(String, WireList),
    /// AbstractAnonCall(input wires, public count, private count, body)
    AbstractAnonCall(WireList, u64, u64, Vec<Gate>),
}

/// The body of a `For` loop.
#[derive(Debug, PartialEq, Eq)]
pub enum ForLoopBody {
    /// IterExprCall(function name, output wires, input wires)
    IterExprCall(String, WireList, WireList),
    /// IterExprAnonCall(output wires, input wires, public count, private count, body)
    IterExprAnonCall(WireList, WireList, u64, u64, Vec<Gate>),
}

#[derive(Debug, PartialEq, Eq)]
pub enum Gate {
    /// Constant(type_id, output, constant)
    Constant(TypeId, WireId, Value),
    /// AssertZero(type_id, input)
    AssertZero(TypeId, WireId),
    /// Copy(type_id, output, input)
    Copy(TypeId, WireId, WireId),
    /// Add(type_id, output, left, right)
    Add(TypeId, WireId, WireId, WireId),
    /// Mul(type_id, output, left, right)
    Mul(TypeId, WireId, WireId, WireId),
    /// AddConstant(type_id, output, input, constant)
    AddConstant(TypeId, WireId, WireId, Value),
    /// MulConstant(type_id, output, input, constant)
    MulConstant(TypeId, WireId, WireId, Value),
    /// And(type_id, output, left, right)
    And(TypeId, WireId, WireId, WireId),
    /// Xor(type_id, output, left, right)
    Xor(TypeId, WireId, WireId, WireId),
    /// Not(type_id, output, input)
    Not(TypeId, WireId, WireId),
    /// PublicInput(type_id, output)
    PublicInput(TypeId, WireId),
    /// PrivateInput(type_id, output)
    PrivateInput(TypeId, WireId),
    /// New(type_id, first, last): allocates the wires first..=last.
    New(TypeId, WireId, WireId),
    /// Delete(type_id, first, last): frees the wires first..=last.
    Delete(TypeId, WireId, WireId),
    /// Convert(output, input)
    Convert(WireList, WireList),
    /// Call(name, output, input)
    Call(String, WireList, WireList),
    /// AnonCall(output, input, public count, private count, body)
    AnonCall(WireList, WireList, u64, u64, Vec<Gate>),
    /// Switch(type_id, condition, output, case values, branches)
    Switch(TypeId, WireId, WireList, Vec<Value>, Vec<CaseInvoke>),
    /// For(iterator name, first, last, output, body)
    For(String, u64, u64, WireList, ForLoopBody),
}

impl Gate {
    /// The output wire of a gate that writes a single wire, if any.
    pub open spec fn output_of(&self) -> Option<WireId> {
        match *self {
            Gate::Constant(_, w, _) | Gate::Copy(_, w, _) | Gate::Add(_, w, _, _) | Gate::Mul(_, w, _, _)
            | Gate::AddConstant(_, w, _, _) | Gate::MulConstant(_, w, _, _) | Gate::And(_, w, _, _) | Gate::Xor(
                _,
                w,
                _,
                _,
            ) | Gate::Not(_, w, _) | Gate::PublicInput(_, w) | Gate::PrivateInput(_, w) => Some(w),
            _ => None,
        }
    }

    /// The output wire id, for gates without ranges: `None` for `AssertZero`
    /// and `Delete`.
    pub fn output_wire_id(&self) -> (r: Option<WireId>)
        requires
            !(*self is New || *self is Convert || *self is Call || *self is AnonCall || *self is Switch
                || *self is For),
        ensures
            r == self.output_of(),
    {
        match self {
            Gate::Constant(_, w, _) | Gate::Copy(_, w, _) | Gate::Add(_, w, _, _) | Gate::Mul(_, w, _, _)
            | Gate::AddConstant(_, w, _, _) | Gate::MulConstant(_, w, _, _) | Gate::And(_, w, _, _) | Gate::Xor(
                _,
                w,
                _,
                _,
            ) | Gate::Not(_, w, _) | Gate::PublicInput(_, w) | Gate::PrivateInput(_, w) => Some(*w),
            _ => None,
        }
    }
}

/// The wires named by one element of a wire list, in order.
pub open spec fn element_wires(e: WireListElement) -> Seq<(TypeId, WireId)> {
    match e {
        WireListElement::Wire(t, w) => seq![(t, w)],
        WireListElement::WireRange(t, first, last) => if first <= last {
            Seq::new((last - first + 1) as nat, |i: int| (t, (first + i) as WireId))
        } else {
            Seq::empty()
        },
    }
}

/// The wires named by a wire list, in order, ranges expanded.
pub open spec fn expand(wl: Seq<WireListElement>) -> Seq<(TypeId, WireId)>
    decreases wl.len(),
{
    if wl.len() == 0 {
        Seq::empty()
    } else {
        expand(wl.drop_last()) + element_wires(wl.last())
    }
}

/// A wire list is well formed when no range is empty.
pub open spec fn well_formed_list(wl: Seq<WireListElement>) -> bool {
    forall|i: int|
        0 <= i < wl.len() ==> match #[trigger] wl[i] {
            WireListElement::Wire(_, _) => true,
            WireListElement::WireRange(_, first, last) => first <= last,
        }
}

/// Whether an element of a wire list names the wire `(t, w)`.
pub open spec fn element_contains(e: WireListElement, t: TypeId, w: WireId) -> bool {
    match e {
        WireListElement::Wire(et, ew) => et == t && ew == w,
        WireListElement::WireRange(et, first, last) => et == t && first <= w <= last,
    }
}

pub open spec fn list_contains(wl: Seq<WireListElement>, t: TypeId, w: WireId) -> bool {
    exists|i: int| 0 <= i < wl.len() && element_contains(#[trigger] wl[i], t, w)
}

/// Whether a branch of a `Switch` reads `(t, w)` in its input list.
pub open spec fn branch_contains(b: CaseInvoke, t: TypeId, w: WireId) -> bool {
    match b {
        CaseInvoke::AbstractGateCall(_, i) => list_contains(i@, t, w),
        CaseInvoke::AbstractAnonCall(i, _, _, _) => list_contains(i@, t, w),
    }
}

pub open spec fn branches_contain(bs: Seq<CaseInvoke>, t: TypeId, w: WireId) -> bool {
    exists|k: int| 0 <= k < bs.len() && branch_contains(#[trigger] bs[k], t, w)
}

/// Whether the body of a `For` names `(t, w)` in one of its wire lists.
pub open spec fn loop_body_contains(b: ForLoopBody, t: TypeId, w: WireId) -> bool {
    match b {
        ForLoopBody::IterExprCall(_, o, i) => list_contains(o@, t, w) || list_contains(i@, t, w),
        ForLoopBody::IterExprAnonCall(o, i, _, _, _) => list_contains(o@, t, w) || list_contains(i@, t, w),
    }
}

/// Whether a gate holds `(t, w)` inside a range that must be kept whole: a
/// bulk allocation, or any wire list of a call, conversion or other nested
/// construct (a switch's outputs and its branches' inputs, a loop's outputs
/// and its body's lists).
pub open spec fn protects(g: Gate, t: TypeId, w: WireId) -> bool {
    match g {
        Gate::New(gt, first, last) => gt == t && first <= w <= last,
        Gate::Convert(o, i) => list_contains(o@, t, w) || list_contains(i@, t, w),
        Gate::Call(_, o, i) => list_contains(o@, t, w) || list_contains(i@, t, w),
        Gate::AnonCall(o, i, _, _, _) => list_contains(o@, t, w) || list_contains(i@, t, w),
        Gate::Switch(_, _, o, _, bs) => list_contains(o@, t, w) || branches_contain(bs@, t, w),
        Gate::For(_, _, _, o, b) => list_contains(o@, t, w) || loop_body_contains(b, t, w),
        _ => false,
    }
}

pub open spec fn is_protected(gates: Seq<Gate>, t: TypeId, w: WireId) -> bool {
    exists|i: int| 0 <= i < gates.len() && protects(#[trigger] gates[i], t, w)
}

/// Whether a `Delete` gate of `gates` frees `(t, w)`.
pub open spec fn is_deleted(gates: Seq<Gate>, t: TypeId, w: WireId) -> bool {
    exists|i: int|
        0 <= i < gates.len() && match #[trigger] gates[i] {
            Gate::Delete(gt, first, last) => gt == t && first <= w <= last,
            _ => false,
        }
}

pub open spec fn rename_id(id: WireId, old_id: WireId, new_id: WireId) -> WireId {
    if id == old_id {
        new_id
    } else {
        id
    }
}

/// `g` with every single-wire occurrence of `(t, old_id)` renamed to
/// `new_id`; ranges and nested constructs are left as they are.
pub open spec fn rename_gate(g: Gate, t: TypeId, old_id: WireId, new_id: WireId) -> Gate {
    match g {
        Gate::Constant(gt, o, v) => if gt == t {
            Gate::Constant(gt, rename_id(o, old_id, new_id), v)
        } else {
            Gate::Constant(gt, o, v)
        },
        Gate::AssertZero(gt, i) => if gt == t {
            Gate::AssertZero(gt, rename_id(i, old_id, new_id))
        } else {
            Gate::AssertZero(gt, i)
        },
        Gate::Copy(gt, o, i) => if gt == t {
            Gate::Copy(gt, rename_id(o, old_id, new_id), rename_id(i, old_id, new_id))
        } else {
            Gate::Copy(gt, o, i)
        },
        Gate::Add(gt, o, l, r) => if gt == t {
            Gate::Add(gt, rename_id(o, old_id, new_id), rename_id(l, old_id, new_id), rename_id(r, old_id, new_id))
        } else {
            Gate::Add(gt, o, l, r)
        },
        Gate::Mul(gt, o, l, r) => if gt == t {
            Gate::Mul(gt, rename_id(o, old_id, new_id), rename_id(l, old_id, new_id), rename_id(r, old_id, new_id))
        } else {
            Gate::Mul(gt, o, l, r)
        },
        Gate::AddConstant(gt, o, i, v) => if gt == t {
            Gate::AddConstant(gt, rename_id(o, old_id, new_id), rename_id(i, old_id, new_id), v)
        } else {
            Gate::AddConstant(gt, o, i, v)
        },
        Gate::MulConstant(gt, o, i, v) => if gt == t {
            Gate::MulConstant(gt, rename_id(o, old_id, new_id), rename_id(i, old_id, new_id), v)
        } else {
            Gate::MulConstant(gt, o, i, v)
        },
        Gate::And(gt, o, l, r) => if gt == t {
            Gate::And(gt, rename_id(o, old_id, new_id), rename_id(l, old_id, new_id), rename_id(r, old_id, new_id))
        } else {
            Gate::And(gt, o, l, r)
        },
        Gate::Xor(gt, o, l, r) => if gt == t {
            Gate::Xor(gt, rename_id(o, old_id, new_id), rename_id(l, old_id, new_id), rename_id(r, old_id, new_id))
        } else {
            Gate::Xor(gt, o, l, r)
        },
        Gate::Not(gt, o, i) => if gt == t {
            Gate::Not(gt, rename_id(o, old_id, new_id), rename_id(i, old_id, new_id))
        } else {
            Gate::Not(gt, o, i)
        },
        Gate::PublicInput(gt, o) => if gt == t {
            Gate::PublicInput(gt, rename_id(o, old_id, new_id))
        } else {
            Gate::PublicInput(gt, o)
        },
        Gate::PrivateInput(gt, o) => if gt == t {
            Gate::PrivateInput(gt, rename_id(o, old_id, new_id))
        } else {
            Gate::PrivateInput(gt, o)
        },
        Gate::Switch(gt, c, o, vals, bs) => if gt == t {
            Gate::Switch(gt, rename_id(c, old_id, new_id), o, vals, bs)
        } else {
            Gate::Switch(gt, c, o, vals, bs)
        },
        other => other,
    }
}

pub open spec fn rename_all(gates: Seq<Gate>, t: TypeId, old_id: WireId, new_id: WireId) -> Seq<Gate> {
    Seq::new(gates.len(), |i: int| rename_gate(gates[i], t, old_id, new_id))
}

/// How many of the first `k` wires of `outs` have type `t`.
pub open spec fn count_type(outs: Seq<(TypeId, WireId)>, t: TypeId) -> nat
    decreases outs.len(),
{
    if outs.len() == 0 {
        0
    } else {
        count_type(outs.drop_last(), t) + if outs.last().0 == t {
            1nat
        } else {
            0nat
        }
    }
}

/// The canonical id of the `k`-th output: its rank among the outputs of its type.
pub open spec fn canonical_id(outs: Seq<(TypeId, WireId)>, k: int) -> nat {
    count_type(outs.take(k), outs[k].0)
}

/// One step of renumbering: the `k`-th output moves to its canonical id, by
/// a trailing `Copy` when a range protects it, else by renaming it everywhere.
pub open spec fn renumber_step(
    gates: Seq<Gate>,
    protected: Seq<Gate>,
    outs: Seq<(TypeId, WireId)>,
    k: int,
) -> Seq<Gate> {
    let (t, w) = outs[k];
    let n = canonical_id(outs, k) as WireId;
    if is_protected(protected, t, w) {
        gates.push(Gate::Copy(t, n, w))
    } else {
        rename_all(gates, t, w, n)
    }
}

/// The body after the first `k` outputs were renumbered, in order;
/// `protected` is the body as it was before any renumbering.
pub open spec fn renumber_prefix(
    protected: Seq<Gate>,
    outs: Seq<(TypeId, WireId)>,
    k: nat,
) -> Seq<Gate>
    decreases k,
{
    if k == 0 {
        protected
    } else {
        renumber_step(renumber_prefix(protected, outs, (k - 1) as nat), protected, outs, k - 1)
    }
}

/// Outputs that `replace_output_wires` refuses: one that a `Delete` frees and
/// no range protects.
pub open spec fn deletes_an_output(gates: Seq<Gate>, outs: Seq<(TypeId, WireId)>) -> bool {
    exists|k: int|
        0 <= k < outs.len() && !is_protected(gates, outs[k].0, outs[k].1) && is_deleted(
            gates,
            outs[k].0,
            outs[k].1,
        )
}

/// Why a wire list or an output list was refused.
#[derive(Clone, Copy, Debug, PartialEq, Eq, Structural)]
pub enum WireListError {
    /// A range whose last wire comes before its first.
    EmptyRange(TypeId, WireId, WireId),
    /// An output wire that a `Delete` gate of the body frees.
    DeletedOutput(TypeId, WireId),
}

fn element_contains_exec(e: &WireListElement, t: TypeId, w: WireId) -> (r: bool)
    ensures
        r == element_contains(*e, t, w),
{
    match e {
        WireListElement::Wire(et, ew) => *et == t && *ew == w,
        WireListElement::WireRange(et, first, last) => *et == t && *first <= w && w <= *last,
    }
}

fn list_contains_exec(wl: &WireList, t: TypeId, w: WireId) -> (r: bool)
    ensures
        r == list_contains(wl@, t, w),
{
    let mut i: usize = 0;
    while i < wl.len()
        invariant
            i <= wl.len(),
            forall|j: int| 0 <= j < i ==> !element_contains(#[trigger] wl@[j], t, w),
        decreases wl.len() - i,
    {
        if element_contains_exec(&wl[i], t, w) {
            return true;
        }
        i += 1;
    }
    false
}

fn protects_exec(g: &Gate, t: TypeId, w: WireId) -> (r: bool)
    ensures
        r == protects(*g, t, w),
{
    match g {
        Gate::New(gt, first, last) => *gt == t && *first <= w && w <= *last,
        Gate::Convert(o, i) => list_contains_exec(o, t, w) || list_contains_exec(i, t, w),
        Gate::Call(_, o, i) => list_contains_exec(o, t, w) || list_contains_exec(i, t, w),
        Gate::AnonCall(o, i, _, _, _) => list_contains_exec(o, t, w) || list_contains_exec(i, t, w),
        Gate::Switch(_, _, o, _, bs) => list_contains_exec(o, t, w) || branches_contain_exec(bs, t, w),
        Gate::For(_, _, _, o, b) => list_contains_exec(o, t, w) || match b {
            ForLoopBody::IterExprCall(_, lo, li) => list_contains_exec(lo, t, w) || list_contains_exec(li, t, w),
            ForLoopBody::IterExprAnonCall(lo, li, _, _, _) => list_contains_exec(lo, t, w) || list_contains_exec(
                li,
                t,
                w,
            ),
        },
        _ => false,
    }
}

fn branches_contain_exec(bs: &Vec<CaseInvoke>, t: TypeId, w: WireId) -> (r: bool)
    ensures
        r == branches_contain(bs@, t, w),
{
    let mut k: usize = 0;
    while k < bs.len()
        invariant
            k <= bs.len(),
            forall|j: int| 0 <= j < k ==> !branch_contains(#[trigger] bs@[j], t, w),
        decreases bs.len() - k,
    {
        let found = match &bs[k] {
            CaseInvoke::AbstractGateCall(_, i) => list_contains_exec(i, t, w),
            CaseInvoke::AbstractAnonCall(i, _, _, _) => list_contains_exec(i, t, w),
        };
        if found {
            assert(branch_contains(bs@[k as int], t, w));
            return true;
        }
        k += 1;
    }
    false
}

fn is_protected_exec(gates: &Vec<Gate>, t: TypeId, w: WireId) -> (r: bool)
    ensures
        r == is_protected(gates@, t, w),
{
    let mut i: usize = 0;
    while i < gates.len()
        invariant
            i <= gates.len(),
            forall|j: int| 0 <= j < i ==> !protects(#[trigger] gates@[j], t, w),
        decreases gates.len() - i,
    {
        if protects_exec(&gates[i], t, w) {
            return true;
        }
        i += 1;
    }
    false
}

fn is_deleted_exec(gates: &Vec<Gate>, t: TypeId, w: WireId) -> (r: bool)
    ensures
        r == is_deleted(gates@, t, w),
{
    let mut i: usize = 0;
    while i < gates.len()
        invariant
            i <= gates.len(),
            forall|j: int|
                0 <= j < i ==> !(match #[trigger] gates@[j] {
                    Gate::Delete(gt, first, last) => gt == t && first <= w <= last,
                    _ => false,
                }),
        decreases gates.len() - i,
    {
        if let Gate::Delete(gt, first, last) = &gates[i] {
            if *gt == t && *first <= w && w <= *last {
                return true;
            }
        }
        i += 1;
    }
    false
}

/// Expands a wire list into the wires it names, in order.
pub fn expand_wirelist(wl: &WireList) -> (r: Result<Vec<(TypeId, WireId)>, WireListError>)
    ensures
        r is Ok <==> well_formed_list(wl@),
        r matches Ok(v) ==> v@ == expand(wl@),
        r matches Err(e) ==> exists|i: int|
            0 <= i < wl@.len() && wl@[i] == WireListElement::WireRange(
                e->EmptyRange_0,
                e->EmptyRange_1,
                e->EmptyRange_2,
            ) && e->EmptyRange_1 > e->EmptyRange_2 && e is EmptyRange,
{
    let mut out: Vec<(TypeId, WireId)> = Vec::new();
    let mut i: usize = 0;
    while i < wl.len()
        invariant
            i <= wl.len(),
            out@ == expand(wl@.take(i as int)),
            well_formed_list(wl@.take(i as int)),
        decreases wl.len() - i,
    {
        assert(wl@.take(i + 1).drop_last() == wl@.take(i as int));
        match wl[i] {
            WireListElement::Wire(t, w) => {
                out.push((t, w));
            },
            WireListElement::WireRange(t, first, last) => {
                if first > last {
                    proof {
                        assert(!well_formed_list(wl@)) by {
                            assert(!(match wl@[i as int] {
                                WireListElement::Wire(_, _) => true,
                                WireListElement::WireRange(_, f, l) => f <= l,
                            }));
                        }
                    }
                    return Err(WireListError::EmptyRange(t, first, last));
                }
                let ghost base = out@;
                let mut w: WireId = first;
                loop
                    invariant_except_break
                        first <= w <= last,
                        out@ == base + Seq::new((w - first) as nat, |j: int| (t, (first + j) as WireId)),
                    ensures
                        out@ == base + Seq::new((last - first + 1) as nat, |j: int| (t, (first + j) as WireId)),
                    decreases last - w,
                {
                    out.push((t, w));
                    if w == last {
                        break;
                    }
                    w += 1;
                }
                assert(out@ =~= base + element_wires(wl@[i as int]));
            },
        }
        i += 1;
        assert(well_formed_list(wl@.take(i as int))) by {
            assert forall|j: int| 0 <= j < i implies match #[trigger] wl@.take(i as int)[j] {
                WireListElement::Wire(_, _) => true,
                WireListElement::WireRange(_, f, l) => f <= l,
            } by {
                if j < i - 1 {
                    assert(wl@.take(i - 1)[j] == wl@.take(i as int)[j]);
                }
            }
        }
    }
    assert(wl@.take(wl.len() as int) == wl@);
    Ok(out)
}

fn rename_id_exec(id: WireId, old_id: WireId, new_id: WireId) -> (r: WireId)
    ensures
        r == rename_id(id, old_id, new_id),
{
    if id == old_id {
        new_id
    } else {
        id
    }
}

fn rename_gate_exec(g: Gate, t: TypeId, old_id: WireId, new_id: WireId) -> (r: Gate)
    ensures
        r == rename_gate(g, t, old_id, new_id),
{
    let rn = |id: WireId| -> (r: WireId)
        ensures
            r == rename_id(id, old_id, new_id),
        { rename_id_exec(id, old_id, new_id) };
    match g {
        Gate::Constant(gt, o, v) if gt == t => Gate::Constant(gt, rn(o), v),
        Gate::AssertZero(gt, i) if gt == t => Gate::AssertZero(gt, rn(i)),
        Gate::Copy(gt, o, i) if gt == t => Gate::Copy(gt, rn(o), rn(i)),
        Gate::Add(gt, o, l, r) if gt == t => Gate::Add(gt, rn(o), rn(l), rn(r)),
        Gate::Mul(gt, o, l, r) if gt == t => Gate::Mul(gt, rn(o), rn(l), rn(r)),
        Gate::AddConstant(gt, o, i, v) if gt == t => Gate::AddConstant(gt, rn(o), rn(i), v),
        Gate::MulConstant(gt, o, i, v) if gt == t => Gate::MulConstant(gt, rn(o), rn(i), v),
        Gate::And(gt, o, l, r) if gt == t => Gate::And(gt, rn(o), rn(l), rn(r)),
        Gate::Xor(gt, o, l, r) if gt == t => Gate::Xor(gt, rn(o), rn(l), rn(r)),
        Gate::Not(gt, o, i) if gt == t => Gate::Not(gt, rn(o), rn(i)),
        Gate::PublicInput(gt, o) if gt == t => Gate::PublicInput(gt, rn(o)),
        Gate::PrivateInput(gt, o) if gt == t => Gate::PrivateInput(gt, rn(o)),
        Gate::Switch(gt, c, o, vals, bs) if gt == t => Gate::Switch(gt, rn(c), o, vals, bs),
        other => other,
    }
}

fn rename_all_exec(gates: &mut Vec<Gate>, t: TypeId, old_id: WireId, new_id: WireId)
    ensures
        final(gates)@ == rename_all(old(gates)@, t, old_id, new_id),
{
    let ghost start = gates@;
    let mut i: usize = 0;
    while i < gates.len()
        invariant
            i <= gates.len() == start.len(),
            forall|j: int| 0 <= j < i ==> #[trigger] gates@[j] == rename_gate(start[j], t, old_id, new_id),
            forall|j: int| i <= j < gates.len() ==> #[trigger] gates@[j] == start[j],
        decreases gates.len() - i,
    {
        let mut g = Gate::AssertZero(0, 0);
        gates.set_and_swap(i, &mut g);
        let renamed = rename_gate_exec(g, t, old_id, new_id);
        gates.set(i, renamed);
        i += 1;
    }
    assert(gates@ =~= rename_all(start, t, old_id, new_id));
}

proof fn lemma_count_type_push(outs: Seq<(TypeId, WireId)>, k: int, t: TypeId)
    requires
        0 <= k < outs.len(),
    ensures
        count_type(outs.take(k + 1), t) == count_type(outs.take(k), t) + if outs[k].0 == t {
            1nat
        } else {
            0nat
        },
        count_type(outs.take(k), t) <= k,
    decreases k,
{
    assert(outs.take(k + 1).drop_last() =~= outs.take(k));
    if k > 0 {
        lemma_count_type_push(outs, k - 1, t);
    } else {
        assert(outs.take(0) =~= Seq::<(TypeId, WireId)>::empty());
    }
}

/// Moves the declared outputs of a function body to their canonical ids:
/// the `k`-th output of a type becomes wire `k` of that type.
///
/// An output that lies inside a protected range (a `New`, or the wires of a
/// nested call or conversion) is exposed by a trailing `Copy` instead; any
/// other is renamed in place throughout the body. An output that a `Delete`
/// of the body frees is refused, and the body is then left as it was.
pub fn replace_output_wires(gates: &mut Vec<Gate>, output_wires: &WireList) -> (r: Result<(), WireListError>)
    ensures
        r is Ok <==> well_formed_list(output_wires@) && !deletes_an_output(
            old(gates)@,
            expand(output_wires@),
        ),
        r is Ok ==> final(gates)@ == renumber_prefix(
            old(gates)@,
            expand(output_wires@),
            expand(output_wires@).len(),
        ),
        r is Err ==> final(gates)@ == old(gates)@,
{
    let outs = match expand_wirelist(output_wires) {
        Ok(v) => v,
        Err(e) => {
            return Err(e);
        },
    };
    let ghost start = gates@;
    // Decide every output's fate against the body as it was given.
    let mut protected: Vec<bool> = Vec::new();
    let mut k: usize = 0;
    while k < outs.len()
        invariant
            k <= outs.len(),
            gates@ == start,
            outs@ == expand(output_wires@),
            well_formed_list(output_wires@),
            protected@.len() == k,
            forall|j: int| 0 <= j < k ==> #[trigger] protected@[j] == is_protected(start, outs@[j].0, outs@[j].1),
            forall|j: int|
                0 <= j < k ==> !(!is_protected(start, outs@[j].0, outs@[j].1) && is_deleted(
                    start,
                    outs@[j].0,
                    outs@[j].1,
                )),
        decreases outs.len() - k,
    {
        let (t, w) = outs[k];
        let p = is_protected_exec(gates, t, w);
        if !p && is_deleted_exec(gates, t, w) {
            assert(!is_protected(start, outs@[k as int].0, outs@[k as int].1)
                && is_deleted(start, outs@[k as int].0, outs@[k as int].1));
            return Err(WireListError::DeletedOutput(t, w));
        }
        protected.push(p);
        k += 1;
    }
    let mut counts: Vec<u64> = Vec::new();
    while counts.len() < 256
        invariant
            counts@.len() <= 256,
            forall|j: int| 0 <= j < counts@.len() ==> #[trigger] counts@[j] == 0,
        decreases 256 - counts.len(),
    {
        counts.push(0);
    }
    assert forall|tt: TypeId| #[trigger] counts@[tt as int] == count_type(outs@.take(0), tt) by {
        assert(outs@.take(0) =~= Seq::<(TypeId, WireId)>::empty());
    }
    let mut k: usize = 0;
    while k < outs.len()
        invariant
            k <= outs.len() == protected@.len(),
            outs@ == expand(output_wires@),
            well_formed_list(output_wires@),
            !deletes_an_output(start, outs@),
            counts@.len() == 256,
            forall|tt: TypeId| #[trigger] counts@[tt as int] == count_type(outs@.take(k as int), tt),
            forall|j: int| 0 <= j < outs.len()
                ==> #[trigger] protected@[j] == is_protected(start, outs@[j].0, outs@[j].1),
            gates@ == renumber_prefix(start, outs@, k as nat),
        decreases outs.len() - k,
    {
        let (t, w) = outs[k];
        proof {
            lemma_count_type_push(outs@, k as int, t);
            assert forall|tt: TypeId| #[trigger] count_type(outs@.take(k + 1), tt) == count_type(outs@.take(k as int), tt) + if outs@[k as int].0 == tt { 1nat } else { 0nat } by {
                lemma_count_type_push(outs@, k as int, tt);
            }
        }
        let n = counts[t as usize];
        counts.set(t as usize, n + 1);
        if protected[k] {
            gates.push(Gate::Copy(t, n, w));
        } else {
            rename_all_exec(gates, t, w, n);
        }
        k += 1;
        assert(counts@[t as int] == count_type(outs@.take(k as int), t));
    }
    Ok(())
}

proof fn lemma_rename_to_itself(gates: Seq<Gate>, t: TypeId, w: WireId)
    ensures
        rename_all(gates, t, w, w) == gates,
{
    assert forall|i: int| 0 <= i < gates.len() implies #[trigger] rename_all(gates, t, w, w)[i] == gates[i] by {
        let g = gates[i];
        match g {
            Gate::Constant(gt, o, v) => assert(rename_id(o, w, w) == o),
            _ => {},
        }
    }
    assert(rename_all(gates, t, w, w) =~= gates);
}

/// Renumbering a body whose outputs already sit at their canonical ids, in
/// no protected range, changes nothing: running it again is a no-op.
pub proof fn lemma_renumber_canonical_is_noop(gates: Seq<Gate>, outs: Seq<(TypeId, WireId)>)
    requires
        forall|k: int|
            0 <= k < outs.len() ==> (#[trigger] outs[k]).1 == canonical_id(outs, k) as WireId && !is_protected(
                gates,
                outs[k].0,
                outs[k].1,
            ),
    ensures
        renumber_prefix(gates, outs, outs.len()) == gates,
{
    lemma_canonical_prefix(gates, outs, outs.len());
}

proof fn lemma_canonical_prefix(gates: Seq<Gate>, outs: Seq<(TypeId, WireId)>, k: nat)
    requires
        k <= outs.len(),
        forall|j: int|
            0 <= j < outs.len() ==> (#[trigger] outs[j]).1 == canonical_id(outs, j) as WireId && !is_protected(
                gates,
                outs[j].0,
                outs[j].1,
            ),
    ensures
        renumber_prefix(gates, outs, k) == gates,
    decreases k,
{
    if k > 0 {
        lemma_canonical_prefix(gates, outs, (k - 1) as nat);
        let j = k - 1;
        lemma_rename_to_itself(gates, outs[j].0, outs[j].1);
    }
}

/// Whether renaming leaves a gate as it is: its wires sit in ranges.
pub open spec fn holds_ranges(g: Gate) -> bool {
    g is New || g is Delete || g is Convert || g is Call || g is AnonCall || g is For
}

/// Renumbering touches no gate that holds ranges: each stays at its place,
/// as it was.
pub proof fn lemma_renumber_keeps_ranges(gates: Seq<Gate>, outs: Seq<(TypeId, WireId)>, k: nat, i: int)
    requires
        k <= outs.len(),
        0 <= i < gates.len(),
        holds_ranges(gates[i]),
    ensures
        renumber_prefix(gates, outs, k).len() >= gates.len(),
        renumber_prefix(gates, outs, k)[i] == gates[i],
    decreases k,
{
    if k > 0 {
        lemma_renumber_keeps_ranges(gates, outs, (k - 1) as nat, i);
    }
}

/// When every declared output lies in a protected range (a bulk allocation,
/// or the wires of a nested call), the body is kept as it is and each output
/// is exposed by a trailing `Copy` to its canonical id, in order.
pub proof fn lemma_protected_outputs_get_copies(gates: Seq<Gate>, outs: Seq<(TypeId, WireId)>, k: nat)
    requires
        k <= outs.len(),
        forall|j: int| 0 <= j < outs.len() ==> is_protected(gates, (#[trigger] outs[j]).0, outs[j].1),
    ensures
        renumber_prefix(gates, outs, k) == gates + Seq::new(
            k,
            |j: int| Gate::Copy(outs[j].0, canonical_id(outs, j) as WireId, outs[j].1),
        ),
    decreases k,
{
    if k > 0 {
        lemma_protected_outputs_get_copies(gates, outs, (k - 1) as nat);
        let j = k - 1;
        assert(is_protected(gates, outs[j].0, outs[j].1));
        assert(renumber_prefix(gates, outs, k) =~= gates + Seq::new(
            k,
            |j: int| Gate::Copy(outs[j].0, canonical_id(outs, j) as WireId, outs[j].1),
        ));
    } else {
        assert(gates + Seq::new(0, |j: int| Gate::Copy(outs[j].0, canonical_id(outs, j) as WireId, outs[j].1)) =~= gates);
    }
}

/// Where the first `k` outputs send the wire `(t, x)`: an output goes to
/// its canonical id, any other wire stays.
pub open spec fn rename_many_id(outs: Seq<(TypeId, WireId)>, k: int, t: TypeId, x: WireId) -> WireId {
    if exists|j: int| 0 <= j < k && outs[j] == (t, x) {
        canonical_id(outs, choose|j: int| 0 <= j < k && outs[j] == (t, x)) as WireId
    } else {
        x
    }
}

/// `g` with each of the first `k` outputs moved to its canonical id, all at
/// once.
pub open spec fn rename_many_gate(g: Gate, outs: Seq<(TypeId, WireId)>, k: int) -> Gate {
    match g {
        Gate::Constant(gt, o, v) => Gate::Constant(gt, rename_many_id(outs, k, gt, o), v),
        Gate::AssertZero(gt, i) => Gate::AssertZero(gt, rename_many_id(outs, k, gt, i)),
        Gate::Copy(gt, o, i) => Gate::Copy(
            gt,
            rename_many_id(outs, k, gt, o),
            rename_many_id(outs, k, gt, i),
        ),
        Gate::Add(gt, o, l, r) => Gate::Add(
            gt,
            rename_many_id(outs, k, gt, o),
            rename_many_id(outs, k, gt, l),
            rename_many_id(outs, k, gt, r),
        ),
        Gate::Mul(gt, o, l, r) => Gate::Mul(
            gt,
            rename_many_id(outs, k, gt, o),
            rename_many_id(outs, k, gt, l),
            rename_many_id(outs, k, gt, r),
        ),
        Gate::AddConstant(gt, o, i, v) => Gate::AddConstant(
            gt,
            rename_many_id(outs, k, gt, o),
            rename_many_id(outs, k, gt, i),
            v,
        ),
        Gate::MulConstant(gt, o, i, v) => Gate::MulConstant(
            gt,
            rename_many_id(outs, k, gt, o),
            rename_many_id(outs, k, gt, i),
            v,
        ),
        Gate::And(gt, o, l, r) => Gate::And(
            gt,
            rename_many_id(outs, k, gt, o),
            rename_many_id(outs, k, gt, l),
            rename_many_id(outs, k, gt, r),
        ),
        Gate::Xor(gt, o, l, r) => Gate::Xor(
            gt,
            rename_many_id(outs, k, gt, o),
            rename_many_id(outs, k, gt, l),
            rename_many_id(outs, k, gt, r),
        ),
        Gate::Not(gt, o, i) => Gate::Not(
            gt,
            rename_many_id(outs, k, gt, o),
            rename_many_id(outs, k, gt, i),
        ),
        Gate::PublicInput(gt, o) => Gate::PublicInput(gt, rename_many_id(outs, k, gt, o)),
        Gate::PrivateInput(gt, o) => Gate::PrivateInput(gt, rename_many_id(outs, k, gt, o)),
        Gate::Switch(gt, c, o, vals, bs) => Gate::Switch(
            gt,
            rename_many_id(outs, k, gt, c),
            o,
            vals,
            bs,
        ),
        other => other,
    }
}


/// The outputs are distinct wires, and no output sits on the canonical id
/// of another output of its type.
pub open spec fn outputs_apart(outs: Seq<(TypeId, WireId)>) -> bool {
    &&& forall|i: int, j: int| 0 <= i < j < outs.len() ==> outs[i] != outs[j]
    &&& forall|i: int, j: int|
        0 <= i < outs.len() && 0 <= j < outs.len() && i != j && outs[i].0 == outs[j].0 ==> outs[i].1
            != canonical_id(outs, j) as WireId
}

proof fn lemma_rename_many_step(outs: Seq<(TypeId, WireId)>, k: int, tg: TypeId, x: WireId)
    requires
        0 <= k < outs.len(),
        outputs_apart(outs),
    ensures
        (if tg == outs[k].0 {
            rename_id(rename_many_id(outs, k, tg, x), outs[k].1, canonical_id(outs, k) as WireId)
        } else {
            rename_many_id(outs, k, tg, x)
        }) == rename_many_id(outs, k + 1, tg, x),
{
    let n_k = canonical_id(outs, k) as WireId;
    if exists|j: int| 0 <= j < k && outs[j] == (tg, x) {
        let j = choose|j: int| 0 <= j < k && outs[j] == (tg, x);
        assert(outs[j] != outs[k]);
        let j2 = choose|j2: int| 0 <= j2 < k + 1 && outs[j2] == (tg, x);
        if j2 != j {
            if j2 < j {
                assert(outs[j2] != outs[j]);
            } else {
                assert(outs[j] != outs[j2]);
            }
        }
        if tg == outs[k].0 {
            assert(outs[k].1 != canonical_id(outs, j) as WireId);
        }
    } else if outs[k] == (tg, x) {
        assert(exists|j: int| 0 <= j < k + 1 && outs[j] == (tg, x)) by {
            assert(outs[k] == (tg, x));
        }
        let j2 = choose|j2: int| 0 <= j2 < k + 1 && outs[j2] == (tg, x);
        assert(j2 == k);
    } else {
        assert(!exists|j: int| 0 <= j < k + 1 && outs[j] == (tg, x)) by {
            if exists|j: int| 0 <= j < k + 1 && outs[j] == (tg, x) {
                let j = choose|j: int| 0 <= j < k + 1 && outs[j] == (tg, x);
                assert(j < k || j == k);
            }
        }
    }
}

#[verifier::rlimit(40)]
proof fn lemma_rename_many_gate_step(g: Gate, outs: Seq<(TypeId, WireId)>, j: int)
    requires
        0 <= j < outs.len(),
        outputs_apart(outs),
    ensures
        rename_gate(rename_many_gate(g, outs, j), outs[j].0, outs[j].1, canonical_id(outs, j) as WireId)
            == rename_many_gate(g, outs, j + 1),
{
    match g {
        Gate::Constant(gt, o, _) => { lemma_rename_many_step(outs, j, gt, o); },
        Gate::AssertZero(gt, i) => { lemma_rename_many_step(outs, j, gt, i); },
        Gate::Copy(gt, o, i) | Gate::AddConstant(gt, o, i, _) | Gate::MulConstant(gt, o, i, _) | Gate::Not(gt, o, i) => {
            lemma_rename_many_step(outs, j, gt, o);
            lemma_rename_many_step(outs, j, gt, i);
        },
        Gate::Add(gt, o, l, r) | Gate::Mul(gt, o, l, r) | Gate::And(gt, o, l, r) | Gate::Xor(gt, o, l, r) => {
            lemma_rename_many_step(outs, j, gt, o);
            lemma_rename_many_step(outs, j, gt, l);
            lemma_rename_many_step(outs, j, gt, r);
        },
        Gate::PublicInput(gt, o) | Gate::PrivateInput(gt, o) => { lemma_rename_many_step(outs, j, gt, o); },
        Gate::Switch(gt, c, _, _, _) => { lemma_rename_many_step(outs, j, gt, c); },
        _ => {},
    }
}

proof fn lemma_rename_none(g: Gate, outs: Seq<(TypeId, WireId)>)
    ensures
        rename_many_gate(g, outs, 0) == g,
{
    assert forall|t: TypeId, x: WireId| #[trigger] rename_many_id(outs, 0, t, x) == x by {}
}

proof fn lemma_rename_many_prefix(gates: Seq<Gate>, outs: Seq<(TypeId, WireId)>, k: nat)
    requires
        k <= outs.len(),
        outputs_apart(outs),
        forall|j: int| 0 <= j < outs.len() ==> !is_protected(gates, (#[trigger] outs[j]).0, outs[j].1),
    ensures
        renumber_prefix(gates, outs, k) == Seq::new(gates.len(), |i: int| rename_many_gate(gates[i], outs, k as int)),
    decreases k,
{
    if k == 0 {
        assert forall|i: int| 0 <= i < gates.len() implies rename_many_gate(gates[i], outs, 0) == gates[i] by {
            lemma_rename_none(gates[i], outs);
        }
        assert(renumber_prefix(gates, outs, 0) =~= Seq::new(gates.len(), |i: int| rename_many_gate(gates[i], outs, 0)));
    } else {
        let j = k - 1;
        lemma_rename_many_prefix(gates, outs, (k - 1) as nat);
        assert(!is_protected(gates, outs[j].0, outs[j].1));
        let prev = renumber_prefix(gates, outs, (k - 1) as nat);
        assert forall|i: int| 0 <= i < gates.len() implies #[trigger] rename_all(prev, outs[j].0, outs[j].1, canonical_id(outs, j) as WireId)[i]
            == rename_many_gate(gates[i], outs, k as int) by {
            lemma_rename_many_gate_step(gates[i], outs, j);
        }
        assert(renumber_prefix(gates, outs, k) =~= Seq::new(gates.len(), |i: int| rename_many_gate(gates[i], outs, k as int)));
    }
}

/// After renumbering, each declared output sits at its canonical id: when
/// the outputs are distinct, lie in no protected range, and none sits on
/// another's canonical id, the body is the original one with every output
/// renamed to its canonical id, all at once.
pub proof fn lemma_outputs_at_canonical_ids(gates: Seq<Gate>, outs: Seq<(TypeId, WireId)>)
    requires
        outputs_apart(outs),
        forall|j: int| 0 <= j < outs.len() ==> !is_protected(gates, (#[trigger] outs[j]).0, outs[j].1),
    ensures
        renumber_prefix(gates, outs, outs.len()) == Seq::new(
            gates.len(),
            |i: int| rename_many_gate(gates[i], outs, outs.len() as int),
        ),
{
    lemma_rename_many_prefix(gates, outs, outs.len());
}

proof fn lemma_prefix_grows(gates: Seq<Gate>, outs: Seq<(TypeId, WireId)>, a: nat, b: nat)
    requires
        a <= b <= outs.len(),
    ensures
        renumber_prefix(gates, outs, a).len() <= renumber_prefix(gates, outs, b).len(),
        gates.len() <= renumber_prefix(gates, outs, a).len(),
    decreases b,
{
    if a < b {
        lemma_prefix_grows(gates, outs, a, (b - 1) as nat);
    } else if a > 0 {
        lemma_prefix_grows(gates, outs, (a - 1) as nat, (a - 1) as nat);
    }
}

proof fn lemma_copy_stays(gates: Seq<Gate>, outs: Seq<(TypeId, WireId)>, k: nat, idx: int, c: Gate)
    requires
        k <= outs.len(),
        0 <= idx < renumber_prefix(gates, outs, k).len(),
        renumber_prefix(gates, outs, k)[idx] == c,
        c matches Gate::Copy(ct, co, ci) && forall|j: int|
            k <= j < outs.len() && (#[trigger] outs[j]).0 == ct ==> outs[j].1 != co && outs[j].1 != ci,
    ensures
        renumber_prefix(gates, outs, outs.len())[idx] == c,
    decreases outs.len() - k,
{
    if k < outs.len() {
        let prev = renumber_prefix(gates, outs, k);
        assert(renumber_prefix(gates, outs, k + 1) == renumber_step(prev, gates, outs, k as int));
        assert(renumber_prefix(gates, outs, k + 1)[idx] == c);
        lemma_copy_stays(gates, outs, k + 1, idx, c);
    }
}

/// With outputs that are distinct and apart, each output that lies in a
/// protected range is exposed at its canonical id by a `Copy` after the
/// original gates, whatever the other outputs are; and (see
/// `lemma_renumber_keeps_ranges`) the gates holding ranges are kept.
pub proof fn lemma_protected_output_copied(gates: Seq<Gate>, outs: Seq<(TypeId, WireId)>, k: int)
    requires
        outputs_apart(outs),
        0 <= k < outs.len(),
        is_protected(gates, outs[k].0, outs[k].1),
    ensures
        exists|idx: int|
            gates.len() <= idx < renumber_prefix(gates, outs, outs.len()).len() && #[trigger] renumber_prefix(
                gates,
                outs,
                outs.len(),
            )[idx] == Gate::Copy(outs[k].0, canonical_id(outs, k) as WireId, outs[k].1),
{
    let c = Gate::Copy(outs[k].0, canonical_id(outs, k) as WireId, outs[k].1);
    let prev = renumber_prefix(gates, outs, k as nat);
    let idx = prev.len() as int;
    assert(renumber_prefix(gates, outs, (k + 1) as nat) == prev.push(c));
    lemma_prefix_grows(gates, outs, k as nat, k as nat);
    lemma_prefix_grows(gates, outs, (k + 1) as nat, outs.len());
    assert forall|j: int| k + 1 <= j < outs.len() && (#[trigger] outs[j]).0 == outs[k].0 implies outs[j].1
        != canonical_id(outs, k) as WireId && outs[j].1 != outs[k].1 by {
        assert(outs[k] != outs[j]);
    }
    lemma_copy_stays(gates, outs, (k + 1) as nat, idx, c);
}

} // verus!
