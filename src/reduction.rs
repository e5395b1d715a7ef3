//! Gate-set reduction: rewrites a circuit so that it uses only the
//! primitive gates of a chosen mask.
use vstd::prelude::*;

use crate::field::{compare_values, le_nat};
use crate::gates::{CaseInvoke, ForLoopBody, Gate};
use crate::structs::Relation;
use crate::validator::{initial_state, relation_step, Validator};
use crate::{TypeId, Value, WireId};

verus! {

pub const ADD: u16 = 0x01;
pub const MUL: u16 = 0x02;
pub const ADDC: u16 = 0x04;
pub const MULC: u16 = 0x08;
pub const XOR: u16 = 0x10;
pub const AND: u16 = 0x20;
pub const NOT: u16 = 0x40;

pub open spec fn allows(mask: u16, feature: u16) -> bool {
    mask & feature == feature
}

/// Whether `feature` is in `mask`.
pub fn contains_feature(mask: u16, feature: u16) -> (r: bool)
    ensures
        r == allows(mask, feature),
{
    mask & feature == feature
}

#[derive(Clone, Copy, Debug, PartialEq, Eq, Structural)]
pub enum ReductionError {
    /// The mask, or a gate of the relation, puts a boolean gate over a type
    /// whose characteristic is not two (or that the header does not declare).
    BooleanGateOverLargeField,
    /// `And` is to be removed but `Mul` is not allowed either.
    AndWithoutMul,
    /// `Xor` is to be removed but `Add` is not allowed either.
    XorWithoutAdd,
    /// No fresh temporary wire id is left.
    TemporaryWiresExhausted,
}

/// The value one, as the constant of a temporary wire.
pub open spec fn one_bytes() -> Seq<u8> {
    seq![1u8, 0u8, 0u8, 0u8]
}

/// Whether type `t` is declared with characteristic two.
pub open spec fn is_two(two: Seq<bool>, t: TypeId) -> bool {
    t < two.len() && two[t as int]
}

pub type Outcome = Result<(Seq<Gate>, u64), ReductionError>;

pub open spec fn xor_rule(two: Seq<bool>, mask: u16, t: TypeId, o: WireId, l: WireId, r: WireId, c: u64) -> Outcome {
    if !is_two(two, t) {
        Err(ReductionError::BooleanGateOverLargeField)
    } else if allows(mask, XOR) {
        Ok((seq![Gate::Xor(t, o, l, r)], c))
    } else if allows(mask, ADD) {
        Ok((seq![Gate::Add(t, o, l, r)], c))
    } else {
        Err(ReductionError::XorWithoutAdd)
    }
}

pub open spec fn and_rule(two: Seq<bool>, mask: u16, t: TypeId, o: WireId, l: WireId, r: WireId, c: u64) -> Outcome {
    if !is_two(two, t) {
        Err(ReductionError::BooleanGateOverLargeField)
    } else if allows(mask, AND) {
        Ok((seq![Gate::And(t, o, l, r)], c))
    } else if allows(mask, MUL) {
        Ok((seq![Gate::Mul(t, o, l, r)], c))
    } else {
        Err(ReductionError::AndWithoutMul)
    }
}

pub open spec fn add_rule(two: Seq<bool>, mask: u16, t: TypeId, o: WireId, l: WireId, r: WireId, c: u64) -> Outcome {
    if allows(mask, ADD) {
        Ok((seq![Gate::Add(t, o, l, r)], c))
    } else {
        xor_rule(two, mask, t, o, l, r, c)
    }
}

pub open spec fn mul_rule(two: Seq<bool>, mask: u16, t: TypeId, o: WireId, l: WireId, r: WireId, c: u64) -> Outcome {
    if allows(mask, MUL) {
        Ok((seq![Gate::Mul(t, o, l, r)], c))
    } else {
        and_rule(two, mask, t, o, l, r, c)
    }
}

/// How many gates a reduction emits and the next free temporary, or the
/// first configuration error met.
pub type Effect = Result<(nat, u64), ReductionError>;

pub open spec fn rule_effect(r: Outcome, extra: nat) -> Effect {
    match r {
        Ok((gs, c2)) => Ok((gs.len() + extra, c2)),
        Err(e) => Err(e),
    }
}

/// The effect of reducing the first `n` gates of `gs`, with `c` the next
/// free temporary wire.
pub open spec fn seq_effect(two: Seq<bool>, mask: u16, gs: Seq<Gate>, n: nat, c: u64) -> Effect
    decreases gs, n,
{
    if n == 0 || n > gs.len() {
        Ok((0, c))
    } else {
        match seq_effect(two, mask, gs, (n - 1) as nat, c) {
            Err(e) => Err(e),
            Ok((k, cm)) => match gate_effect(two, mask, gs[n - 1], cm) {
                Err(e) => Err(e),
                Ok((k2, c2)) => Ok((k + k2, c2)),
            },
        }
    }
}

/// The effect of reducing the bodies of the first `n` branches of `bs`:
/// the next free temporary, or the first error.
pub open spec fn branches_effect(two: Seq<bool>, mask: u16, bs: Seq<CaseInvoke>, n: nat, c: u64) -> Result<u64, ReductionError>
    decreases bs, n,
{
    if n == 0 || n > bs.len() {
        Ok(c)
    } else {
        match branches_effect(two, mask, bs, (n - 1) as nat, c) {
            Err(e) => Err(e),
            Ok(cm) => match bs[n - 1] {
                CaseInvoke::AbstractGateCall(_, _) => Ok(cm),
                CaseInvoke::AbstractAnonCall(_, _, _, body) => match seq_effect(two, mask, body@, body@.len(), cm) {
                    Err(e) => Err(e),
                    Ok((_, c2)) => Ok(c2),
                },
            },
        }
    }
}

pub open spec fn nested_effect(r: Effect) -> Effect {
    match r {
        Ok((_, c2)) => Ok((1, c2)),
        Err(e) => Err(e),
    }
}

/// The effect of reducing one gate.
pub open spec fn gate_effect(two: Seq<bool>, mask: u16, g: Gate, c: u64) -> Effect
    decreases g, 0nat,
{
    match g {
        Gate::Add(t, o, l, r) => rule_effect(add_rule(two, mask, t, o, l, r, c), 0),
        Gate::Mul(t, o, l, r) => rule_effect(mul_rule(two, mask, t, o, l, r, c), 0),
        Gate::Xor(t, o, l, r) => rule_effect(xor_rule(two, mask, t, o, l, r, c), 0),
        Gate::And(t, o, l, r) => rule_effect(and_rule(two, mask, t, o, l, r, c), 0),
        Gate::AddConstant(t, o, i, _) => if allows(mask, ADDC) {
            Ok((1, c))
        } else if c == u64::MAX {
            Err(ReductionError::TemporaryWiresExhausted)
        } else {
            rule_effect(add_rule(two, mask, t, o, i, c, (c + 1) as u64), 1)
        },
        Gate::MulConstant(t, o, i, _) => if allows(mask, MULC) {
            Ok((1, c))
        } else if c == u64::MAX {
            Err(ReductionError::TemporaryWiresExhausted)
        } else {
            rule_effect(mul_rule(two, mask, t, o, i, c, (c + 1) as u64), 1)
        },
        Gate::Not(t, o, i) => if !is_two(two, t) {
            Err(ReductionError::BooleanGateOverLargeField)
        } else if allows(mask, NOT) {
            Ok((1, c))
        } else if c == u64::MAX {
            Err(ReductionError::TemporaryWiresExhausted)
        } else {
            rule_effect(xor_rule(two, mask, t, o, i, c, (c + 1) as u64), 1)
        },
        Gate::AnonCall(_, _, _, _, body) => nested_effect(seq_effect(two, mask, body@, body@.len(), c)),
        Gate::Switch(_, _, _, _, bs) => match branches_effect(two, mask, bs@, bs@.len(), c) {
            Ok(c2) => Ok((1, c2)),
            Err(e) => Err(e),
        },
        Gate::For(_, _, _, _, ForLoopBody::IterExprAnonCall(_, _, _, _, body)) => nested_effect(
            seq_effect(two, mask, body@, body@.len(), c),
        ),
        _ => Ok((1, c)),
    }
}

/// The gates that reducing the first `n` gates of `gs` emits (where it succeeds).
pub open spec fn seq_emits(two: Seq<bool>, mask: u16, gs: Seq<Gate>, n: nat, c: u64, out: Seq<Gate>) -> bool
    decreases gs, n,
{
    if n == 0 || n > gs.len() {
        out.len() == 0
    } else {
        match seq_effect(two, mask, gs, (n - 1) as nat, c) {
            Err(_) => true,
            Ok((k, cm)) => k <= out.len() && seq_emits(two, mask, gs, (n - 1) as nat, c, out.take(k as int))
                && gate_emits(two, mask, gs[n - 1], cm, out.skip(k as int)),
        }
    }
}

/// The branches that reducing the first `n` branches of `bs` emits.
pub open spec fn branches_emit(two: Seq<bool>, mask: u16, bs: Seq<CaseInvoke>, n: nat, c: u64, out: Seq<CaseInvoke>) -> bool
    decreases bs, n,
{
    if n == 0 || n > bs.len() {
        out.len() == 0
    } else {
        match branches_effect(two, mask, bs, (n - 1) as nat, c) {
            Err(_) => true,
            Ok(cm) => out.len() == n && branches_emit(two, mask, bs, (n - 1) as nat, c, out.take(n - 1))
                && match bs[n - 1] {
                CaseInvoke::AbstractGateCall(_, _) => out[n - 1] == bs[n - 1],
                CaseInvoke::AbstractAnonCall(i, p, w, body) => match out[n - 1] {
                    CaseInvoke::AbstractAnonCall(i2, p2, w2, b2) => i2 == i && p2 == p && w2 == w
                        && body_emits(two, mask, body@, cm, b2@),
                    _ => false,
                },
            },
        }
    }
}

/// A reduced body: exactly the gates that reducing `body` emits.
pub open spec fn body_emits(two: Seq<bool>, mask: u16, body: Seq<Gate>, c: u64, out: Seq<Gate>) -> bool
    decreases body, body.len() + 1,
{
    match seq_effect(two, mask, body, body.len(), c) {
        Ok((k, _)) => out.len() == k && seq_emits(two, mask, body, body.len(), c, out),
        Err(_) => true,
    }
}

pub open spec fn rule_emits(r: Outcome, out: Seq<Gate>) -> bool {
    match r {
        Ok((gs, _)) => out == gs,
        Err(_) => true,
    }
}

/// The gates that reducing `g` emits (where it succeeds): the rewrite rule's
/// gates, after the constant of a fresh temporary where the rule needs one;
/// or the nested gate around its reduced body.
pub open spec fn gate_emits(two: Seq<bool>, mask: u16, g: Gate, c: u64, out: Seq<Gate>) -> bool
    decreases g, 0nat,
{
    match g {
        Gate::Add(t, o, l, r) => rule_emits(add_rule(two, mask, t, o, l, r, c), out),
        Gate::Mul(t, o, l, r) => rule_emits(mul_rule(two, mask, t, o, l, r, c), out),
        Gate::Xor(t, o, l, r) => rule_emits(xor_rule(two, mask, t, o, l, r, c), out),
        Gate::And(t, o, l, r) => rule_emits(and_rule(two, mask, t, o, l, r, c), out),
        Gate::AddConstant(t, o, i, v) => if allows(mask, ADDC) {
            out == seq![g]
        } else {
            out.len() >= 1 && out[0] == Gate::Constant(t, c, v) && rule_emits(
                add_rule(two, mask, t, o, i, c, (c + 1) as u64),
                out.skip(1),
            )
        },
        Gate::MulConstant(t, o, i, v) => if allows(mask, MULC) {
            out == seq![g]
        } else {
            out.len() >= 1 && out[0] == Gate::Constant(t, c, v) && rule_emits(
                mul_rule(two, mask, t, o, i, c, (c + 1) as u64),
                out.skip(1),
            )
        },
        Gate::Not(t, o, i) => if allows(mask, NOT) {
            out == seq![g]
        } else {
            out.len() >= 1 && match out[0] {
                Gate::Constant(kt, kw, kv) => kt == t && kw == c && kv@ == one_bytes(),
                _ => false,
            } && rule_emits(xor_rule(two, mask, t, o, i, c, (c + 1) as u64), out.skip(1))
        },
        Gate::AnonCall(o, i, p, w, body) => out.len() == 1 && match out[0] {
            Gate::AnonCall(o2, i2, p2, w2, b2) => o2 == o && i2 == i && p2 == p && w2 == w && body_emits(
                two,
                mask,
                body@,
                c,
                b2@,
            ),
            _ => false,
        },
        Gate::Switch(t, cnd, o, vals, bs) => out.len() == 1 && match out[0] {
            Gate::Switch(t2, cnd2, o2, vals2, bs2) => t2 == t && cnd2 == cnd && o2 == o && vals2 == vals
                && branches_emit(two, mask, bs@, bs@.len(), c, bs2@),
            _ => false,
        },
        Gate::For(name, first, last, o, ForLoopBody::IterExprAnonCall(lo, li, p, w, body)) => out.len() == 1
            && match out[0] {
            Gate::For(name2, first2, last2, o2, ForLoopBody::IterExprAnonCall(lo2, li2, p2, w2, b2)) => name2
                == name && first2 == first && last2 == last && o2 == o && lo2 == lo && li2 == li && p2 == p && w2
                == w && body_emits(two, mask, body@, c, b2@),
            _ => false,
        },
        _ => out == seq![g],
    }
}

/// Eliminating `And` from a mask that excludes `Mul` too aborts: one such
/// gate anywhere at the top level makes the whole reduction fail, so no
/// relation is emitted.
pub proof fn lemma_and_without_mul_aborts(two: Seq<bool>, mask: u16, gs: Seq<Gate>, c: u64, i: int)
    requires
        !allows(mask, AND),
        !allows(mask, MUL),
        0 <= i < gs.len(),
        gs[i] is And,
    ensures
        seq_effect(two, mask, gs, gs.len(), c) is Err,
        is_two(two, gs[i]->And_0) ==> gate_effect(two, mask, gs[i], c) == Err::<(nat, u64), ReductionError>(
            ReductionError::AndWithoutMul,
        ),
{
    lemma_error_at(two, mask, gs, c, i, gs.len());
}

proof fn lemma_error_at(two: Seq<bool>, mask: u16, gs: Seq<Gate>, c: u64, i: int, n: nat)
    requires
        !allows(mask, AND),
        !allows(mask, MUL),
        0 <= i < n <= gs.len(),
        gs[i] is And,
    ensures
        seq_effect(two, mask, gs, n, c) is Err,
    decreases n,
{
    if i < n - 1 {
        lemma_error_at(two, mask, gs, c, i, (n - 1) as nat);
    } else {
        assert(i == n - 1);
        if let Ok((k, cm)) = seq_effect(two, mask, gs, (n - 1) as nat, c) {
            if let Gate::And(t, o, l, r) = gs[n - 1] {
                assert(and_rule(two, mask, t, o, l, r, cm) is Err);
                assert(gate_effect(two, mask, gs[n - 1], cm) is Err);
            }
        }
    }
}

/// Whether `g` is an `And`, or holds one in a nested body, at any depth.
pub open spec fn holds_and(g: Gate) -> bool
    decreases g,
{
    match g {
        Gate::And(..) => true,
        Gate::AnonCall(_, _, _, _, body) => exists|m: int| 0 <= m < body@.len() && holds_and(#[trigger] body@[m]),
        Gate::For(_, _, _, _, ForLoopBody::IterExprAnonCall(_, _, _, _, body)) => exists|m: int|
            0 <= m < body@.len() && holds_and(#[trigger] body@[m]),
        Gate::Switch(_, _, _, _, bs) => exists|k: int|
            0 <= k < bs@.len() && (#[trigger] bs@[k] matches CaseInvoke::AbstractAnonCall(_, _, _, body) && exists|m: int|
                0 <= m < body@.len() && holds_and(#[trigger] body@[m])),
        _ => false,
    }
}

proof fn lemma_seq_error_at(two: Seq<bool>, mask: u16, gs: Seq<Gate>, c: u64, i: int, n: nat)
    requires
        0 <= i < n <= gs.len(),
        forall|cm: u64| #[trigger] gate_effect(two, mask, gs[i], cm) is Err,
    ensures
        seq_effect(two, mask, gs, n, c) is Err,
    decreases n,
{
    if i < n - 1 {
        lemma_seq_error_at(two, mask, gs, c, i, (n - 1) as nat);
    } else {
        if let Ok((k, cm)) = seq_effect(two, mask, gs, (n - 1) as nat, c) {
            assert(gate_effect(two, mask, gs[n - 1], cm) is Err);
        }
    }
}

proof fn lemma_branches_error_at(two: Seq<bool>, mask: u16, bs: Seq<CaseInvoke>, c: u64, k: int, n: nat)
    requires
        0 <= k < n <= bs.len(),
        bs[k] matches CaseInvoke::AbstractAnonCall(_, _, _, body) && forall|cm: u64|
            #[trigger] seq_effect(two, mask, body@, body@.len(), cm) is Err,
    ensures
        branches_effect(two, mask, bs, n, c) is Err,
    decreases n,
{
    if k < n - 1 {
        lemma_branches_error_at(two, mask, bs, c, k, (n - 1) as nat);
    } else {
        if let Ok(cm) = branches_effect(two, mask, bs, (n - 1) as nat, c) {
            if let CaseInvoke::AbstractAnonCall(_, _, _, body) = bs[n - 1] {
                assert(seq_effect(two, mask, body@, body@.len(), cm) is Err);
            }
        }
    }
}

/// Eliminating `And` from a mask that excludes `Mul` too aborts also when
/// the `And` sits in a nested body, at any depth: reducing `g` fails,
/// whatever the next free temporary.
pub proof fn lemma_nested_and_aborts(two: Seq<bool>, mask: u16, g: Gate, c: u64)
    requires
        !allows(mask, AND),
        !allows(mask, MUL),
        holds_and(g),
    ensures
        gate_effect(two, mask, g, c) is Err,
    decreases g,
{
    match g {
        Gate::And(t, o, l, r) => {
            assert(and_rule(two, mask, t, o, l, r, c) is Err);
        },
        Gate::AnonCall(_, _, _, _, body) => {
            let m = choose|m: int| 0 <= m < body@.len() && holds_and(#[trigger] body@[m]);
            assert forall|cm: u64| #[trigger] gate_effect(two, mask, body@[m], cm) is Err by {
                lemma_nested_and_aborts(two, mask, body@[m], cm);
            }
            lemma_seq_error_at(two, mask, body@, c, m, body@.len());
        },
        Gate::For(_, _, _, _, ForLoopBody::IterExprAnonCall(_, _, _, _, body)) => {
            let m = choose|m: int| 0 <= m < body@.len() && holds_and(#[trigger] body@[m]);
            assert forall|cm: u64| #[trigger] gate_effect(two, mask, body@[m], cm) is Err by {
                lemma_nested_and_aborts(two, mask, body@[m], cm);
            }
            lemma_seq_error_at(two, mask, body@, c, m, body@.len());
        },
        Gate::Switch(_, _, _, _, bs) => {
            let k = choose|k: int|
                0 <= k < bs@.len() && (#[trigger] bs@[k] matches CaseInvoke::AbstractAnonCall(_, _, _, body) && exists|m: int|
                    0 <= m < body@.len() && holds_and(#[trigger] body@[m]));
            if let CaseInvoke::AbstractAnonCall(_, _, _, body) = bs@[k] {
                let m = choose|m: int| 0 <= m < body@.len() && holds_and(#[trigger] body@[m]);
                assert forall|cm: u64| #[trigger] gate_effect(two, mask, body@[m], cm) is Err by {
                    lemma_nested_and_aborts(two, mask, body@[m], cm);
                }
                assert forall|cm: u64| #[trigger] seq_effect(two, mask, body@, body@.len(), cm) is Err by {
                    lemma_seq_error_at(two, mask, body@, cm, m, body@.len());
                }
                lemma_branches_error_at(two, mask, bs@, c, k, bs@.len());
            }
        },
        _ => {},
    }
}

/// Whichever top-level gate holds an `And` (itself or in a nested body),
/// eliminating it without `Mul` makes the whole reduction abort.
pub proof fn lemma_and_anywhere_aborts(two: Seq<bool>, mask: u16, gs: Seq<Gate>, c: u64, i: int)
    requires
        !allows(mask, AND),
        !allows(mask, MUL),
        0 <= i < gs.len(),
        holds_and(gs[i]),
    ensures
        seq_effect(two, mask, gs, gs.len(), c) is Err,
{
    assert forall|cm: u64| #[trigger] gate_effect(two, mask, gs[i], cm) is Err by {
        lemma_nested_and_aborts(two, mask, gs[i], cm);
    }
    lemma_seq_error_at(two, mask, gs, c, i, gs.len());
}

/// A gate without a nested body.
pub open spec fn is_flat(g: Gate) -> bool {
    !(g is AnonCall || g is Switch || g is For)
}

/// The gates that a reduction to `mask` keeps as they are.
pub open spec fn is_reduced(two: Seq<bool>, mask: u16, g: Gate) -> bool {
    match g {
        Gate::Add(..) => allows(mask, ADD),
        Gate::Mul(..) => allows(mask, MUL),
        Gate::AddConstant(..) => allows(mask, ADDC),
        Gate::MulConstant(..) => allows(mask, MULC),
        Gate::And(t, ..) => allows(mask, AND) && is_two(two, t),
        Gate::Xor(t, ..) => allows(mask, XOR) && is_two(two, t),
        Gate::Not(t, ..) => allows(mask, NOT) && is_two(two, t),
        _ => is_flat(g),
    }
}

proof fn lemma_emitted_are_reduced(two: Seq<bool>, mask: u16, g: Gate, c: u64, out: Seq<Gate>)
    requires
        is_flat(g),
        gate_effect(two, mask, g, c) matches Ok((k, _)) && out.len() == k,
        gate_emits(two, mask, g, c, out),
    ensures
        forall|j: int| 0 <= j < out.len() ==> is_reduced(two, mask, #[trigger] out[j]),
{
    match g {
        Gate::AddConstant(..) | Gate::MulConstant(..) | Gate::Not(..) => {
            if out.len() > 1 {
                assert forall|j: int| 0 <= j < out.len() implies is_reduced(two, mask, #[trigger] out[j]) by {
                    if j > 0 {
                        assert(out[j] == out.skip(1)[j - 1]);
                    }
                }
            }
        },
        _ => {},
    }
}

proof fn lemma_reduced_is_kept(two: Seq<bool>, mask: u16, g: Gate, c: u64)
    requires
        is_reduced(two, mask, g),
    ensures
        gate_effect(two, mask, g, c) == Ok::<(nat, u64), ReductionError>((1, c)),
        gate_emits(two, mask, g, c, seq![g]),
        forall|out: Seq<Gate>| gate_emits(two, mask, g, c, out) && out.len() == 1 ==> out == seq![g],
{
}

/// Reduction to a mask is idempotent on gate sequences without nested
/// bodies: reducing the result again, from the next free temporary, keeps
/// every gate as it is and allocates no temporary.
pub proof fn lemma_reduction_idempotent(two: Seq<bool>, mask: u16, gs: Seq<Gate>, c: u64, out: Seq<Gate>, c2: u64)
    requires
        forall|i: int| 0 <= i < gs.len() ==> is_flat(#[trigger] gs[i]),
        seq_effect(two, mask, gs, gs.len(), c) == Ok::<(nat, u64), ReductionError>((out.len(), c2)),
        seq_emits(two, mask, gs, gs.len(), c, out),
    ensures
        seq_effect(two, mask, out, out.len(), c2) == Ok::<(nat, u64), ReductionError>((out.len(), c2)),
        seq_emits(two, mask, out, out.len(), c2, out),
        forall|out2: Seq<Gate>|
            seq_emits(two, mask, out, out.len(), c2, out2) && out2.len() == out.len() ==> out2 == out,
{
    lemma_emits_reduced(two, mask, gs, gs.len(), c, out);
    lemma_reduced_seq_kept(two, mask, out, out.len(), c2);
    assert(out.take(out.len() as int) =~= out);
}

proof fn lemma_emits_reduced(two: Seq<bool>, mask: u16, gs: Seq<Gate>, n: nat, c: u64, out: Seq<Gate>)
    requires
        n <= gs.len(),
        forall|i: int| 0 <= i < gs.len() ==> is_flat(#[trigger] gs[i]),
        seq_effect(two, mask, gs, n, c) matches Ok((k, _)) && out.len() == k,
        seq_emits(two, mask, gs, n, c, out),
    ensures
        forall|j: int| 0 <= j < out.len() ==> is_reduced(two, mask, #[trigger] out[j]),
    decreases n,
{
    if n > 0 {
        let prev = seq_effect(two, mask, gs, (n - 1) as nat, c);
        if let Ok((k, cm)) = prev {
            lemma_emits_reduced(two, mask, gs, (n - 1) as nat, c, out.take(k as int));
            lemma_emitted_are_reduced(two, mask, gs[n - 1], cm, out.skip(k as int));
            assert forall|j: int| 0 <= j < out.len() implies is_reduced(two, mask, #[trigger] out[j]) by {
                if j < k {
                    assert(out[j] == out.take(k as int)[j]);
                } else {
                    assert(out[j] == out.skip(k as int)[j - k]);
                }
            }
        }
    }
}

proof fn lemma_reduced_seq_kept(two: Seq<bool>, mask: u16, gs: Seq<Gate>, n: nat, c: u64)
    requires
        n <= gs.len(),
        forall|j: int| 0 <= j < gs.len() ==> is_reduced(two, mask, #[trigger] gs[j]),
    ensures
        seq_effect(two, mask, gs, n, c) == Ok::<(nat, u64), ReductionError>((n, c)),
        seq_emits(two, mask, gs, n, c, gs.take(n as int)),
        forall|out2: Seq<Gate>|
            seq_emits(two, mask, gs, n, c, out2) && out2.len() == n ==> out2 == gs.take(n as int),
    decreases n,
{
    if n > 0 {
        lemma_reduced_seq_kept(two, mask, gs, (n - 1) as nat, c);
        lemma_reduced_is_kept(two, mask, gs[n - 1], c);
        let t = gs.take(n as int);
        assert(t.take(n - 1) =~= gs.take(n - 1));
        assert(t.skip(n - 1) =~= seq![gs[n - 1]]);
        assert forall|out2: Seq<Gate>|
            seq_emits(two, mask, gs, n, c, out2) && out2.len() == n implies out2 == gs.take(n as int) by {
            assert(out2.take(n - 1) == gs.take(n - 1));
            assert(out2.skip(n - 1) == seq![gs[n - 1]]);
            assert(out2 =~= out2.take(n - 1) + out2.skip(n - 1));
            assert(gs.take(n as int) =~= gs.take(n - 1) + seq![gs[n - 1]]);
        }
    } else {
        assert(gs.take(0) =~= Seq::<Gate>::empty());
        assert forall|out2: Seq<Gate>|
            seq_emits(two, mask, gs, n, c, out2) && out2.len() == n implies out2 == gs.take(n as int) by {
            assert(out2 =~= gs.take(0));
        }
    }
}

/// The bit that a field element of characteristic two encodes.
pub open spec fn bit(v: Seq<u8>) -> bool {
    le_nat(v) % 2 == 1
}

/// Values of wires over the field of two elements.
pub type Env = spec_fn((TypeId, WireId)) -> bool;

pub open spec fn set_wire(env: Env, t: TypeId, o: WireId, b: bool) -> Env {
    |p: (TypeId, WireId)| if p == (t, o) { b } else { env(p) }
}

/// One gate evaluated over the field of two elements; `inputs` gives the
/// value of each input gate's wire.
pub open spec fn eval_gate(env: Env, g: Gate, inputs: Env) -> Env {
    match g {
        Gate::Constant(t, o, v) => set_wire(env, t, o, bit(v@)),
        Gate::Copy(t, o, i) => set_wire(env, t, o, env((t, i))),
        Gate::Add(t, o, l, r) | Gate::Xor(t, o, l, r) => set_wire(env, t, o, env((t, l)) != env((t, r))),
        Gate::Mul(t, o, l, r) | Gate::And(t, o, l, r) => set_wire(env, t, o, env((t, l)) && env((t, r))),
        Gate::AddConstant(t, o, i, v) => set_wire(env, t, o, env((t, i)) != bit(v@)),
        Gate::MulConstant(t, o, i, v) => set_wire(env, t, o, env((t, i)) && bit(v@)),
        Gate::Not(t, o, i) => set_wire(env, t, o, !env((t, i))),
        Gate::PublicInput(t, o) | Gate::PrivateInput(t, o) => set_wire(env, t, o, inputs((t, o))),
        _ => env,
    }
}

/// A sequence of gates evaluated in order over the field of two elements.
pub open spec fn eval_gates(env: Env, gs: Seq<Gate>, inputs: Env) -> Env
    decreases gs.len(),
{
    if gs.len() == 0 {
        env
    } else {
        eval_gate(eval_gates(env, gs.drop_last(), inputs), gs.last(), inputs)
    }
}

/// Two valuations agree on every wire id below `bound`.
pub open spec fn agree_below(a: Env, b: Env, bound: u64) -> bool {
    forall|t: TypeId, w: WireId| w < bound ==> #[trigger] a((t, w)) == b((t, w))
}

/// Every wire id of a flat gate is below `bound`.
pub open spec fn wires_below(g: Gate, bound: u64) -> bool {
    match g {
        Gate::Constant(_, o, _) | Gate::PublicInput(_, o) | Gate::PrivateInput(_, o) => o < bound,
        Gate::AssertZero(_, i) => i < bound,
        Gate::Copy(_, o, i) | Gate::AddConstant(_, o, i, _) | Gate::MulConstant(_, o, i, _) | Gate::Not(_, o, i) => o
            < bound && i < bound,
        Gate::Add(_, o, l, r) | Gate::Mul(_, o, l, r) | Gate::And(_, o, l, r) | Gate::Xor(_, o, l, r) => o < bound
            && l < bound && r < bound,
        Gate::New(_, _, last) | Gate::Delete(_, _, last) => last < bound,
        _ => false,
    }
}

proof fn lemma_eval_append(env: Env, a: Seq<Gate>, b: Seq<Gate>, inputs: Env)
    ensures
        eval_gates(env, a + b, inputs) == eval_gates(eval_gates(env, a, inputs), b, inputs),
    decreases b.len(),
{
    if b.len() == 0 {
        assert(a + b =~= a);
    } else {
        lemma_eval_append(env, a, b.drop_last(), inputs);
        assert((a + b).drop_last() =~= a + b.drop_last());
        assert((a + b).last() == b.last());
    }
}

proof fn lemma_eval_single(env: Env, g: Gate, inputs: Env)
    ensures
        eval_gates(env, seq![g], inputs) == eval_gate(env, g, inputs),
{
    assert(seq![g].drop_last() =~= Seq::<Gate>::empty());
    assert(eval_gates(env, Seq::<Gate>::empty(), inputs) == env);
    assert(seq![g].last() == g);
}

proof fn lemma_eval_pair(env: Env, g1: Gate, g2: Gate, out: Seq<Gate>, inputs: Env)
    requires
        out.len() == 2,
        out[0] == g1,
        out[1] == g2,
    ensures
        eval_gates(env, out, inputs) == eval_gate(eval_gate(env, g1, inputs), g2, inputs),
{
    assert(out.drop_last() =~= seq![g1]);
    lemma_eval_single(env, g1, inputs);
}

/// One reduced gate computes, over the field of two elements, what the
/// original gate computes, on every wire below the first temporary.
proof fn lemma_gate_keeps_values(
    two: Seq<bool>,
    mask: u16,
    g: Gate,
    c: u64,
    out: Seq<Gate>,
    e1: Env,
    e2: Env,
    inputs: Env,
    c0: u64,
)
    requires
        wires_below(g, c0),
        c0 <= c,
        gate_effect(two, mask, g, c) matches Ok((k, _)) && out.len() == k,
        gate_emits(two, mask, g, c, out),
        agree_below(e1, e2, c0),
    ensures
        agree_below(eval_gate(e1, g, inputs), eval_gates(e2, out, inputs), c0),
        gate_effect(two, mask, g, c) matches Ok((_, c2)) && c <= c2 && forall|j: int| 0 <= j < out.len()
            ==> wires_below(#[trigger] out[j], c2),
{
    match g {
        Gate::AddConstant(t, o, i, v) | Gate::MulConstant(t, o, i, v) => {
            if out.len() == 1 {
                lemma_eval_single(e2, out[0], inputs);
            } else {
                assert(out[1] == out.skip(1)[0]);
                lemma_eval_pair(e2, out[0], out[1], out, inputs);
            }
        },
        Gate::Not(t, o, i) => {
            if out.len() == 1 {
                lemma_eval_single(e2, out[0], inputs);
            } else {
                assert(out[1] == out.skip(1)[0]);
                let k = out[0];
                if let Gate::Constant(kt, kw, kv) = k {
                    assert(kv@ == one_bytes());
                    assert(one_bytes().drop_first() =~= seq![0u8, 0u8, 0u8]);
                    assert(seq![0u8, 0u8, 0u8].drop_first() =~= seq![0u8, 0u8]);
                    assert(seq![0u8, 0u8].drop_first() =~= seq![0u8]);
                    assert(seq![0u8].drop_first() =~= Seq::<u8>::empty());
                    assert(le_nat(Seq::<u8>::empty()) == 0);
                    assert(le_nat(seq![0u8]) == 0);
                    assert(le_nat(seq![0u8, 0u8]) == 0);
                    assert(le_nat(seq![0u8, 0u8, 0u8]) == 0);
                    assert(le_nat(one_bytes()) == 1);
                }
                lemma_eval_pair(e2, out[0], out[1], out, inputs);
            }
        },
        _ => {
            lemma_eval_single(e2, out[0], inputs);
        },
    }
}

proof fn lemma_seq_keeps_values(
    two: Seq<bool>,
    mask: u16,
    gs: Seq<Gate>,
    n: nat,
    c: u64,
    out: Seq<Gate>,
    e: Env,
    inputs: Env,
    c0: u64,
)
    requires
        n <= gs.len(),
        forall|i: int| 0 <= i < gs.len() ==> wires_below(#[trigger] gs[i], c0),
        c0 <= c,
        seq_effect(two, mask, gs, n, c) matches Ok((k, _)) && out.len() == k,
        seq_emits(two, mask, gs, n, c, out),
    ensures
        agree_below(eval_gates(e, gs.take(n as int), inputs), eval_gates(e, out, inputs), c0),
        seq_effect(two, mask, gs, n, c) matches Ok((_, c2)) && c <= c2 && forall|j: int|
            0 <= j < out.len() ==> wires_below(#[trigger] out[j], c2),
    decreases n,
{
    if n == 0 {
        assert(gs.take(0) =~= Seq::<Gate>::empty());
        assert(out =~= Seq::<Gate>::empty());
    } else {
        let (k1, cm) = seq_effect(two, mask, gs, (n - 1) as nat, c)->Ok_0;
        let a = out.take(k1 as int);
        let b = out.skip(k1 as int);
        lemma_seq_keeps_values(two, mask, gs, (n - 1) as nat, c, a, e, inputs, c0);
        let g = gs[n - 1];
        let e1 = eval_gates(e, gs.take(n - 1), inputs);
        let e2 = eval_gates(e, a, inputs);
        lemma_gate_keeps_values(two, mask, g, cm, b, e1, e2, inputs, c0);
        assert(out =~= a + b);
        lemma_eval_append(e, a, b, inputs);
        assert(gs.take(n as int).drop_last() =~= gs.take(n - 1));
        assert(gs.take(n as int).last() == g);
        let (_, c2) = seq_effect(two, mask, gs, n, c)->Ok_0;
        assert forall|j: int| 0 <= j < out.len() implies wires_below(#[trigger] out[j], c2) by {
            if j < k1 {
                assert(out[j] == a[j]);
                assert(wires_below(a[j], cm));
            } else {
                assert(out[j] == b[j - k1]);
            }
        }
    }
}

/// Over the field of two elements, reducing a relation and then reducing
/// the result to another mask keeps the value of every original wire, for
/// every assignment of the inputs (temporaries start above the original
/// wire ids). Reducing to `Xor`, `And`, `Not` and back to `Add`, `Mul`,
/// `AddConstant`, `MulConstant` is one instance.
pub proof fn lemma_round_trip_keeps_values(
    two: Seq<bool>,
    first_mask: u16,
    second_mask: u16,
    gs: Seq<Gate>,
    c0: u64,
    out1: Seq<Gate>,
    c1: u64,
    out2: Seq<Gate>,
    c2: u64,
    inputs: Env,
    e: Env,
)
    requires
        forall|i: int| 0 <= i < gs.len() ==> wires_below(#[trigger] gs[i], c0),
        seq_effect(two, first_mask, gs, gs.len(), c0) == Ok::<(nat, u64), ReductionError>((out1.len(), c1)),
        seq_emits(two, first_mask, gs, gs.len(), c0, out1),
        seq_effect(two, second_mask, out1, out1.len(), c1) == Ok::<(nat, u64), ReductionError>((out2.len(), c2)),
        seq_emits(two, second_mask, out1, out1.len(), c1, out2),
    ensures
        agree_below(eval_gates(e, gs, inputs), eval_gates(e, out2, inputs), c0),
{
    lemma_seq_keeps_values(two, first_mask, gs, gs.len(), c0, out1, e, inputs, c0);
    assert(gs.take(gs.len() as int) =~= gs);
    lemma_seq_keeps_values(two, second_mask, out1, out1.len(), c1, out2, e, inputs, c1);
    assert(out1.take(out1.len() as int) =~= out1);
}

fn is_two_exec(two: &Vec<bool>, t: TypeId) -> (r: bool)
    ensures
        r == is_two(two@, t),
{
    (t as usize) < two.len() && two[t as usize]
}

fn xor_rule_exec(two: &Vec<bool>, mask: u16, t: TypeId, o: WireId, l: WireId, r: WireId, c: u64) -> (res: Result<Gate, ReductionError>)
    ensures
        match res {
            Ok(g) => xor_rule(two@, mask, t, o, l, r, c) == Ok::<(Seq<Gate>, u64), ReductionError>((seq![g], c)),
            Err(e) => xor_rule(two@, mask, t, o, l, r, c) == Err::<(Seq<Gate>, u64), ReductionError>(e),
        },
{
    if !is_two_exec(two, t) {
        Err(ReductionError::BooleanGateOverLargeField)
    } else if contains_feature(mask, XOR) {
        Ok(Gate::Xor(t, o, l, r))
    } else if contains_feature(mask, ADD) {
        Ok(Gate::Add(t, o, l, r))
    } else {
        Err(ReductionError::XorWithoutAdd)
    }
}

fn and_rule_exec(two: &Vec<bool>, mask: u16, t: TypeId, o: WireId, l: WireId, r: WireId, c: u64) -> (res: Result<Gate, ReductionError>)
    ensures
        match res {
            Ok(g) => and_rule(two@, mask, t, o, l, r, c) == Ok::<(Seq<Gate>, u64), ReductionError>((seq![g], c)),
            Err(e) => and_rule(two@, mask, t, o, l, r, c) == Err::<(Seq<Gate>, u64), ReductionError>(e),
        },
{
    if !is_two_exec(two, t) {
        Err(ReductionError::BooleanGateOverLargeField)
    } else if contains_feature(mask, AND) {
        Ok(Gate::And(t, o, l, r))
    } else if contains_feature(mask, MUL) {
        Ok(Gate::Mul(t, o, l, r))
    } else {
        Err(ReductionError::AndWithoutMul)
    }
}

fn add_rule_exec(two: &Vec<bool>, mask: u16, t: TypeId, o: WireId, l: WireId, r: WireId, c: u64) -> (res: Result<Gate, ReductionError>)
    ensures
        match res {
            Ok(g) => add_rule(two@, mask, t, o, l, r, c) == Ok::<(Seq<Gate>, u64), ReductionError>((seq![g], c)),
            Err(e) => add_rule(two@, mask, t, o, l, r, c) == Err::<(Seq<Gate>, u64), ReductionError>(e),
        },
{
    if contains_feature(mask, ADD) {
        Ok(Gate::Add(t, o, l, r))
    } else {
        xor_rule_exec(two, mask, t, o, l, r, c)
    }
}

fn mul_rule_exec(two: &Vec<bool>, mask: u16, t: TypeId, o: WireId, l: WireId, r: WireId, c: u64) -> (res: Result<Gate, ReductionError>)
    ensures
        match res {
            Ok(g) => mul_rule(two@, mask, t, o, l, r, c) == Ok::<(Seq<Gate>, u64), ReductionError>((seq![g], c)),
            Err(e) => mul_rule(two@, mask, t, o, l, r, c) == Err::<(Seq<Gate>, u64), ReductionError>(e),
        },
{
    if contains_feature(mask, MUL) {
        Ok(Gate::Mul(t, o, l, r))
    } else {
        and_rule_exec(two, mask, t, o, l, r, c)
    }
}

proof fn lemma_error_propagates(two: Seq<bool>, mask: u16, gs: Seq<Gate>, k: nat, n: nat, c: u64, e: ReductionError)
    requires
        seq_effect(two, mask, gs, k, c) == Err::<(nat, u64), ReductionError>(e),
        0 < k <= n <= gs.len(),
    ensures
        seq_effect(two, mask, gs, n, c) == Err::<(nat, u64), ReductionError>(e),
    decreases n - k,
{
    if k < n {
        lemma_error_propagates(two, mask, gs, k + 1, n, c, e);
    }
}

proof fn lemma_branch_error_propagates(
    two: Seq<bool>,
    mask: u16,
    bs: Seq<CaseInvoke>,
    k: nat,
    n: nat,
    c: u64,
    e: ReductionError,
)
    requires
        branches_effect(two, mask, bs, k, c) == Err::<u64, ReductionError>(e),
        0 < k <= n <= bs.len(),
    ensures
        branches_effect(two, mask, bs, n, c) == Err::<u64, ReductionError>(e),
    decreases n - k,
{
    if k < n {
        lemma_branch_error_propagates(two, mask, bs, k + 1, n, c, e);
    }
}

/// Reduces a sequence of gates, in order, threading the temporary counter.
fn reduce_seq(two: &Vec<bool>, mask: u16, gates: Vec<Gate>, counter: &mut u64) -> (res: Result<Vec<Gate>, ReductionError>)
    ensures
        match res {
            Ok(v) => seq_effect(two@, mask, gates@, gates@.len(), *old(counter)) == Ok::<(nat, u64), ReductionError>((v@.len(), *final(counter)))
                && seq_emits(two@, mask, gates@, gates@.len(), *old(counter), v@),
            Err(e) => seq_effect(two@, mask, gates@, gates@.len(), *old(counter)) == Err::<(nat, u64), ReductionError>(e),
        },
    decreases gates,
{
    let ghost gs0 = gates;
    let ghost c0 = *counter;
    let mut gs = gates;
    let mut out: Vec<Gate> = Vec::new();
    let n = gs.len();
    let mut i: usize = 0;
    while i < n
        invariant
            i <= n == gs.len() == gs0@.len(),
            gs0 == gates,
            c0 == *old(counter),
            forall|j: int| i <= j < n ==> #[trigger] gs@[j] == gs0@[j],
            seq_effect(two@, mask, gs0@, i as nat, c0) == Ok::<(nat, u64), ReductionError>((out@.len(), *counter)),
            seq_emits(two@, mask, gs0@, i as nat, c0, out@),
        decreases n - i,
    {
        let mut g = Gate::AssertZero(0, 0);
        gs.set_and_swap(i, &mut g);
        let ghost before = out@;
        proof {
            vstd::std_specs::vec::axiom_vec_index_decreases(gs0, i as int);
            assert(g == gs0@[i as int]);
            assert(decreases_to!(gs0 => g));
        }
        match reduce_gate(two, mask, g, counter) {
            Ok(mut piece) => {
                let ghost p = piece@;
                out.append(&mut piece);
                proof {
                    assert(out@.take(before.len() as int) =~= before);
                    assert(out@.skip(before.len() as int) =~= p);
                }
            },
            Err(e) => {
                proof {
                    lemma_error_propagates(two@, mask, gs0@, (i + 1) as nat, n as nat, c0, e);
                }
                return Err(e);
            },
        }
        i += 1;
    }
    Ok(out)
}

/// Reduces the anonymous bodies of a switch's branches, in order.
fn reduce_branches(two: &Vec<bool>, mask: u16, branches: Vec<CaseInvoke>, counter: &mut u64) -> (res: Result<Vec<CaseInvoke>, ReductionError>)
    ensures
        match res {
            Ok(v) => branches_effect(two@, mask, branches@, branches@.len(), *old(counter)) == Ok::<u64, ReductionError>(*final(counter))
                && branches_emit(two@, mask, branches@, branches@.len(), *old(counter), v@),
            Err(e) => branches_effect(two@, mask, branches@, branches@.len(), *old(counter)) == Err::<u64, ReductionError>(e),
        },
    decreases branches,
{
    let ghost bs0 = branches;
    let ghost c0 = *counter;
    let mut bs = branches;
    let mut out: Vec<CaseInvoke> = Vec::new();
    let n = bs.len();
    let mut i: usize = 0;
    while i < n
        invariant
            i <= n == bs.len() == bs0@.len(),
            bs0 == branches,
            c0 == *old(counter),
            out@.len() == i,
            forall|j: int| i <= j < n ==> #[trigger] bs@[j] == bs0@[j],
            branches_effect(two@, mask, bs0@, i as nat, c0) == Ok::<u64, ReductionError>(*counter),
            branches_emit(two@, mask, bs0@, i as nat, c0, out@),
        decreases n - i,
    {
        let mut b = CaseInvoke::AbstractGateCall(String::new(), Vec::new());
        bs.set_and_swap(i, &mut b);
        let ghost before = out@;
        proof {
            vstd::std_specs::vec::axiom_vec_index_decreases(bs0, i as int);
            assert(b == bs0@[i as int]);
            assert(decreases_to!(bs0 => b));
        }
        match b {
            CaseInvoke::AbstractGateCall(name, inputs) => {
                out.push(CaseInvoke::AbstractGateCall(name, inputs));
                proof {
                    let n1: nat = (i + 1) as nat;
                    assert(out@.take(n1 - 1) =~= before);
                    assert(out@[n1 - 1] == bs0@[n1 - 1]);
                    assert(branches_emit(two@, mask, bs0@, n1, c0, out@));
                }
            },
            CaseInvoke::AbstractAnonCall(inputs, p, w, body) => {
                let ghost body0 = body;
                let ghost cm = *counter;
                match reduce_seq(two, mask, body, counter) {
                    Ok(new_body) => {
                        let ghost nb = new_body@;
                        out.push(CaseInvoke::AbstractAnonCall(inputs, p, w, new_body));
                        proof {
                            let n1: nat = (i + 1) as nat;
                            assert(out@.take(n1 - 1) =~= before);
                            assert(body_emits(two@, mask, body0@, cm, nb));
                            assert(branches_emit(two@, mask, bs0@, n1, c0, out@));
                        }
                    },
                    Err(e) => {
                        proof {
                            lemma_branch_error_propagates(two@, mask, bs0@, (i + 1) as nat, n as nat, c0, e);
                        }
                        return Err(e);
                    },
                }
            },
        }
        i += 1;
    }
    Ok(out)
}

/// Reduces a gate without a nested body.
fn reduce_leaf(two: &Vec<bool>, mask: u16, g: Gate, counter: &mut u64) -> (res: Result<Vec<Gate>, ReductionError>)
    requires
        !(g is AnonCall || g is Switch || g is For),
    ensures
        match res {
            Ok(v) => gate_effect(two@, mask, g, *old(counter)) == Ok::<(nat, u64), ReductionError>((v@.len(), *final(counter)))
                && gate_emits(two@, mask, g, *old(counter), v@),
            Err(e) => gate_effect(two@, mask, g, *old(counter)) == Err::<(nat, u64), ReductionError>(e),
        },
{
    let ghost g0 = g;
    let c = *counter;
    match g {
        Gate::Add(t, o, l, r) => match add_rule_exec(two, mask, t, o, l, r, c) {
            Ok(x) => {
                let v = vec![x];
                assert(v@ =~= seq![x]);
                Ok(v)
            },
            Err(e) => Err(e),
        },
        Gate::Mul(t, o, l, r) => match mul_rule_exec(two, mask, t, o, l, r, c) {
            Ok(x) => {
                let v = vec![x];
                assert(v@ =~= seq![x]);
                Ok(v)
            },
            Err(e) => Err(e),
        },
        Gate::Xor(t, o, l, r) => match xor_rule_exec(two, mask, t, o, l, r, c) {
            Ok(x) => {
                let v = vec![x];
                assert(v@ =~= seq![x]);
                Ok(v)
            },
            Err(e) => Err(e),
        },
        Gate::And(t, o, l, r) => match and_rule_exec(two, mask, t, o, l, r, c) {
            Ok(x) => {
                let v = vec![x];
                assert(v@ =~= seq![x]);
                Ok(v)
            },
            Err(e) => Err(e),
        },
        Gate::AddConstant(t, o, i, k) => {
            if contains_feature(mask, ADDC) {
                let v = vec![Gate::AddConstant(t, o, i, k)];
                assert(v@ =~= seq![g0]);
                return Ok(v);
            }
            if c == u64::MAX {
                return Err(ReductionError::TemporaryWiresExhausted);
            }
            *counter = c + 1;
            match add_rule_exec(two, mask, t, o, i, c, c + 1) {
                Ok(x) => {
                    let v = vec![Gate::Constant(t, c, k), x];
                    assert(v@.skip(1) =~= seq![x]);
                    Ok(v)
                },
                Err(e) => Err(e),
            }
        },
        Gate::MulConstant(t, o, i, k) => {
            if contains_feature(mask, MULC) {
                let v = vec![Gate::MulConstant(t, o, i, k)];
                assert(v@ =~= seq![g0]);
                return Ok(v);
            }
            if c == u64::MAX {
                return Err(ReductionError::TemporaryWiresExhausted);
            }
            *counter = c + 1;
            match mul_rule_exec(two, mask, t, o, i, c, c + 1) {
                Ok(x) => {
                    let v = vec![Gate::Constant(t, c, k), x];
                    assert(v@.skip(1) =~= seq![x]);
                    Ok(v)
                },
                Err(e) => Err(e),
            }
        },
        Gate::Not(t, o, i) => {
            if !is_two_exec(two, t) {
                return Err(ReductionError::BooleanGateOverLargeField);
            }
            if contains_feature(mask, NOT) {
                let v = vec![Gate::Not(t, o, i)];
                assert(v@ =~= seq![g0]);
                return Ok(v);
            }
            if c == u64::MAX {
                return Err(ReductionError::TemporaryWiresExhausted);
            }
            *counter = c + 1;
            match xor_rule_exec(two, mask, t, o, i, c, c + 1) {
                Ok(x) => {
                    let one: Vec<u8> = vec![1u8, 0u8, 0u8, 0u8];
                    assert(one@ =~= one_bytes());
                    let v = vec![Gate::Constant(t, c, one), x];
                    assert(v@.skip(1) =~= seq![x]);
                    Ok(v)
                },
                Err(e) => Err(e),
            }
        },
        other => {
            let v = vec![other];
            assert(v@ =~= seq![g0]);
            Ok(v)
        },
    }
}


/// Reduces one gate: `Ok` holds the gates that replace it.
fn reduce_gate(two: &Vec<bool>, mask: u16, g: Gate, counter: &mut u64) -> (res: Result<Vec<Gate>, ReductionError>)
    ensures
        match res {
            Ok(v) => gate_effect(two@, mask, g, *old(counter)) == Ok::<(nat, u64), ReductionError>((v@.len(), *final(counter)))
                && gate_emits(two@, mask, g, *old(counter), v@),
            Err(e) => gate_effect(two@, mask, g, *old(counter)) == Err::<(nat, u64), ReductionError>(e),
        },
    decreases g,
{
    let ghost g0 = g;
    match g {
        Gate::AnonCall(o, i, p, w, body) => match reduce_seq(two, mask, body, counter) {
            Ok(new_body) => {
                let v = vec![Gate::AnonCall(o, i, p, w, new_body)];
                assert(v@.len() == 1 && v@[0] == Gate::AnonCall(o, i, p, w, new_body));
                Ok(v)
            },
            Err(e) => Err(e),
        },
        Gate::Switch(t, cnd, o, vals, bs) => match reduce_branches(two, mask, bs, counter) {
            Ok(new_bs) => {
                let v = vec![Gate::Switch(t, cnd, o, vals, new_bs)];
                assert(v@.len() == 1 && v@[0] == Gate::Switch(t, cnd, o, vals, new_bs));
                Ok(v)
            },
            Err(e) => Err(e),
        },
        Gate::For(name, first, last, o, ForLoopBody::IterExprAnonCall(lo, li, p, w, body)) => {
            match reduce_seq(two, mask, body, counter) {
                Ok(new_body) => {
                    let v = vec![Gate::For(name, first, last, o, ForLoopBody::IterExprAnonCall(lo, li, p, w, new_body))];
                    assert(v@.len() == 1);
                    Ok(v)
                },
                Err(e) => Err(e),
            }
        },
        Gate::For(name, first, last, o, ForLoopBody::IterExprCall(f, fo, fi)) => {
            let v = vec![Gate::For(name, first, last, o, ForLoopBody::IterExprCall(f, fo, fi))];
            assert(v@ =~= seq![g0]);
            Ok(v)
        },
        other => reduce_leaf(two, mask, other, counter),
    }
}

/// Which declared types have characteristic two.
pub open spec fn two_of(types: Seq<Value>) -> Seq<bool> {
    types.map_values(|v: Value| le_nat(v@) == 2)
}

pub open spec fn uses_boolean(mask: u16) -> bool {
    allows(mask, XOR) || allows(mask, AND) || allows(mask, NOT)
}

pub open spec fn all_two(two: Seq<bool>) -> bool {
    forall|i: int| 0 <= i < two.len() ==> #[trigger] two[i]
}

/// What reducing `relation` to `mask` from the temporary `start` gives: a
/// relation with the same header, plugins and conversions, no functions, the
/// rewritten gates, and the next free temporary; or the configuration error.
pub open spec fn reduces_to(
    relation: Relation,
    mask: u16,
    start: u64,
    r: Result<(Relation, u64), ReductionError>,
) -> bool {
    let two = two_of(relation.header.types@);
    let gs = relation.gates@;
    if uses_boolean(mask) && !all_two(two) {
        r == Err::<(Relation, u64), ReductionError>(ReductionError::BooleanGateOverLargeField)
    } else {
        match seq_effect(two, mask, gs, gs.len(), start) {
            Err(e) => r == Err::<(Relation, u64), ReductionError>(e),
            Ok((k, c2)) => match r {
                Ok((rel, c3)) => c3 == c2 && rel.gates@.len() == k
                    && seq_emits(two, mask, gs, gs.len(), start, rel.gates@)
                    && rel.header == relation.header && rel.plugins == relation.plugins && rel.conversions
                    == relation.conversions && rel.functions@.len() == 0,
                Err(_) => false,
            },
        }
    }
}

fn characteristic_two(types: &Vec<Value>) -> (r: Vec<bool>)
    ensures
        r@ == two_of(types@),
{
    let two_bytes: Vec<u8> = vec![2u8];
    proof {
        assert(two_bytes@.drop_first() =~= Seq::<u8>::empty());
        assert(le_nat(two_bytes@.drop_first()) == 0);
        assert(le_nat(two_bytes@) == 2);
    }
    let mut r: Vec<bool> = Vec::new();
    let mut i: usize = 0;
    while i < types.len()
        invariant
            i <= types.len(),
            le_nat(two_bytes@) == 2,
            r@ =~= two_of(types@).take(i as int),
        decreases types.len() - i,
    {
        r.push(compare_values(&types[i], &two_bytes) == 0);
        i += 1;
    }
    r
}

/// Rewrites `relation` so that it uses only the primitive gates of
/// `gate_mask`, numbering fresh temporary wires from `tmp_wire_start`.
/// Returns the new relation and the next free temporary.
pub fn exp_definable_from(relation: Relation, gate_mask: u16, tmp_wire_start: u64) -> (r: Result<(Relation, u64), ReductionError>)
    ensures
        reduces_to(relation, gate_mask, tmp_wire_start, r),
{
    let two = characteristic_two(&relation.header.types);
    if contains_feature(gate_mask, XOR) || contains_feature(gate_mask, AND) || contains_feature(gate_mask, NOT) {
        let mut i: usize = 0;
        while i < two.len()
            invariant
                i <= two.len(),
                two@ == two_of(relation.header.types@),
                uses_boolean(gate_mask),
                forall|j: int| 0 <= j < i ==> #[trigger] two@[j],
            decreases two.len() - i,
        {
            if !two[i] {
                assert(!all_two(two@)) by {
                    assert(!two@[i as int]);
                }
                return Err(ReductionError::BooleanGateOverLargeField);
            }
            i += 1;
        }
    }
    let Relation { header, plugins, conversions, functions, gates } = relation;
    let mut counter = tmp_wire_start;
    match reduce_seq(&two, gate_mask, gates, &mut counter) {
        Ok(new_gates) => Ok((Relation { header, plugins, conversions, functions: Vec::new(), gates: new_gates }, counter)),
        Err(e) => Err(e),
    }
}

/// Rewrites `relation` to the gates of `gate_mask`; fresh temporaries start
/// above every wire that a verifier-side validation of it declares.
pub fn exp_definable(relation: Relation, gate_mask: u16) -> (r: Result<Relation, ReductionError>)
    ensures
        exists|res: Result<(Relation, u64), ReductionError>|
            reduces_to(relation, gate_mask, relation_step(initial_state(false), relation).wire_bound, res)
                && match res {
                Ok((rel, _)) => r == Ok::<Relation, ReductionError>(rel),
                Err(e) => r == Err::<Relation, ReductionError>(e),
            },
{
    let mut validator = Validator::new_as_verifier();
    validator.ingest_relation(&relation);
    let start = validator.temporary_wire_start();
    let res = exp_definable_from(relation, gate_mask, start);
    match res {
        Ok((rel, _)) => Ok(rel),
        Err(e) => Err(e),
    }
}

/// Two successful calls of `exp_definable_from`, the second on the first's
/// result from its next free temporary, keep over the field of two elements
/// the value of every wire of the original relation, for every assignment of
/// the inputs, when its gates have no nested body and its wire ids lie below
/// the first temporary. Reducing to `XOR | AND | NOT` and then to
/// `ADD | MUL | ADDC | MULC` is one instance.
pub proof fn lemma_round_trip_of_relations(
    r: Relation,
    first_mask: u16,
    second_mask: u16,
    c0: u64,
    r1: Relation,
    c1: u64,
    r2: Relation,
    c2: u64,
    inputs: Env,
    e: Env,
)
    requires
        forall|i: int| 0 <= i < r.gates@.len() ==> wires_below(#[trigger] r.gates@[i], c0),
        reduces_to(r, first_mask, c0, Ok((r1, c1))),
        reduces_to(r1, second_mask, c1, Ok((r2, c2))),
    ensures
        agree_below(eval_gates(e, r.gates@, inputs), eval_gates(e, r2.gates@, inputs), c0),
{
    let two = two_of(r.header.types@);
    assert(two_of(r1.header.types@) == two);
    lemma_round_trip_keeps_values(two, first_mask, second_mask, r.gates@, c0, r1.gates@, c1, r2.gates@, c2, inputs, e);
}

} // verus!
