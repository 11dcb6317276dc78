//! Primitive operations over the value domain: SMT term construction,
//! conversions, assertions, integer arithmetic and comparisons.
//!
//! Every primop inspects the shapes of its operands. When all operands are
//! concrete it computes concretely; when one is symbolic it lifts the
//! concrete operands to SMT literals and defines a fresh constant for the
//! result; when a shape is impossible for the operation it fails with a
//! type error naming the operation.

use vstd::prelude::*;
use crate::bitvector::Sbits;
use crate::error::ExecError;
use crate::smt::{Exp, Def, Solver, SmtTy, SmtResult, spec_sort_of};
use crate::value::{Val, AbsVal, Sym, abs_wf, struct_field, vals_view, val_view, field_first, val_field_first, lemma_field_first_view};
use vstd::arithmetic::div_mod::{lemma_div_nonincreasing, lemma_div_pos_is_pos, lemma_div_is_ordered_by_denominator, lemma_div_is_ordered};
use vstd::arithmetic::power2::{pow2 as pow2_spec, lemma2_to64, lemma2_to64_rest, lemma_pow2_strictly_increases};

verus! {

/// A type error naming the operation that rejected its operands.
pub fn type_error(op: &str) -> (r: ExecError)
    ensures
        r is Type,
{
    ExecError::Type(op.to_owned())
}

/// Bit `i` of the two's complement representation of a 128-bit integer.
pub open spec fn i128_bits_seq(n: i128) -> Seq<bool> {
    Seq::new(128, |i: int| (n >> (i as i128)) & 1 == 1)
}

/// Bit `i` of the two's complement representation of a 64-bit integer.
pub open spec fn i64_bits_seq(n: i64) -> Seq<bool> {
    Seq::new(64, |i: int| (n >> (i as i64)) & 1 == 1)
}

/// Bit `i` of an 8-bit integer.
pub open spec fn u8_bits_seq(n: u8) -> Seq<bool> {
    Seq::new(8, |i: int| (n >> (i as u8)) & 1 == 1)
}

/// A mask literal of `len` bits whose low `mask_width` bits are set.
pub open spec fn mask_lower_seq(len: nat, mask_width: nat) -> Seq<bool> {
    Seq::new(len, |i: int| i < mask_width)
}

/// The term is the 128-bit literal of `n`.
pub open spec fn is_i128_lit(e: Exp, n: i128) -> bool {
    e matches Exp::Bits(v) && v@ == i128_bits_seq(n)
}

/// The term is the 64-bit literal of `n`.
pub open spec fn is_i64_lit(e: Exp, n: i64) -> bool {
    e matches Exp::Bits(v) && v@ == i64_bits_seq(n)
}

/// The term is the literal of the concrete bit vector `b`.
pub open spec fn is_sbits_lit(e: Exp, b: Sbits) -> bool {
    e matches Exp::Bits64(v, w) && v == b.value() && w == b.width()
}

/// The term is the SMT literal of the base value `v`, exactly as
/// [`smt_value`] builds it.
pub open spec fn is_smt_value(v: AbsVal, e: Exp) -> bool {
    match v {
        AbsVal::Symbolic(s) => e matches Exp::Var(x) && x == s,
        AbsVal::I128(n) => is_i128_lit(e, n),
        AbsVal::I64(n) => is_i64_lit(e, n),
        AbsVal::Bits(b) => is_sbits_lit(e, b),
        AbsVal::Bool(b) => e matches Exp::Bool(x) && x == b,
        AbsVal::Enum(m) => e matches Exp::Enum(x) && x == m,
        _ => false,
    }
}

/// The base values, which have an SMT literal form.
pub open spec fn is_smt_base(v: AbsVal) -> bool {
    v is Symbolic || v is I128 || v is I64 || v is Bits || v is Bool || v is Enum
}

/// Nothing observable about the solver changed.
pub open spec fn solver_unchanged(a: Solver, b: Solver) -> bool {
    &&& b.next_sym() == a.next_sym()
    &&& b.trace() == a.trace()
    &&& b.sorts() == a.sorts()
    &&& b.events() == a.events()
    &&& b.cycles() == a.cycles()
    &&& b.answers() == a.answers()
}

/// The term defining the most recently defined constant.
pub open spec fn last_exp(b: Solver) -> Exp {
    b.trace().last()->DefineConst_1
}

/// Exactly one fresh constant was defined, and `r` is its handle.
pub open spec fn defines_fresh(a: Solver, b: Solver, r: Val) -> bool {
    &&& r matches Val::Symbolic(s) && s == a.next_sym()
    &&& b.next_sym() == a.next_sym() + 1
    &&& b.trace().len() == a.trace().len() + 1
    &&& b.trace().subrange(0, a.trace().len() as int) == a.trace()
    &&& b.trace().last() matches Def::DefineConst(s, _) && s == a.next_sym()
    &&& b.sorts() == a.sorts().push(spec_sort_of(a.sorts(), last_exp(b)))
    &&& b.events() == a.events()
    &&& b.cycles() == a.cycles()
    &&& b.answers() == a.answers()
}

/// Exactly one fresh constant was declared with the given sort, and `r` is
/// its handle.
pub open spec fn declares_fresh(a: Solver, b: Solver, r: Val, ty: SmtTy) -> bool {
    &&& r matches Val::Symbolic(s) && s == a.next_sym()
    &&& b.next_sym() == a.next_sym() + 1
    &&& b.trace().len() == a.trace().len() + 1
    &&& b.trace().subrange(0, a.trace().len() as int) == a.trace()
    &&& b.trace().last() matches Def::DeclareConst(s, t) && s == a.next_sym() && t == ty
    &&& b.sorts() == a.sorts().push(Some(ty))
    &&& b.events() == a.events()
    &&& b.cycles() == a.cycles()
    &&& b.answers() == a.answers()
}


/// Like [`declares_fresh`], and exactly one event was published.
pub open spec fn declares_fresh_with_event(
    a: Solver,
    b: Solver,
    r: Val,
    ty: SmtTy,
    ev: crate::smt::Event,
) -> bool {
    &&& r matches Val::Symbolic(s) && s == a.next_sym()
    &&& b.next_sym() == a.next_sym() + 1
    &&& b.trace().len() == a.trace().len() + 1
    &&& b.trace().subrange(0, a.trace().len() as int) == a.trace()
    &&& b.trace().last() matches Def::DeclareConst(s, t) && s == a.next_sym() && t == ty
    &&& b.sorts() == a.sorts().push(Some(ty))
    &&& b.events() == a.events().push(ev)
    &&& b.cycles() == a.cycles()
    &&& b.answers() == a.answers()
}

/// Define a fresh constant equal to `e` and return its handle as a value.
pub fn define_result(solver: &mut Solver, e: Exp) -> (r: Val)
    requires
        old(solver).wf(),
        old(solver).next_sym() < u32::MAX,
    ensures
        final(solver).wf(),
        defines_fresh(*old(solver), *final(solver), r),
        last_exp(*final(solver)) == e,
{
    let ghost a = *solver;
    let s = solver.define_const(e);
    proof {
        assert(solver.trace().subrange(0, a.trace().len() as int) =~= a.trace());
    }
    Val::Symbolic(s)
}

/// Declare a fresh constant of sort `ty` and return its handle as a value.
pub fn declare_result(solver: &mut Solver, ty: SmtTy) -> (r: Val)
    requires
        old(solver).wf(),
        old(solver).next_sym() < u32::MAX,
    ensures
        final(solver).wf(),
        declares_fresh(*old(solver), *final(solver), r, ty),
{
    let ghost a = *solver;
    let s = solver.declare_const(ty);
    proof {
        assert(solver.trace().subrange(0, a.trace().len() as int) =~= a.trace());
    }
    Val::Symbolic(s)
}

/// The 128-bit SMT literal of an integer.
pub fn smt_i128(i: i128) -> (r: Exp)
    ensures
        is_i128_lit(r, i),
{
    let mut bitvec: Vec<bool> = Vec::new();
    let mut n: u32 = 0;
    while n < 128
        invariant
            n <= 128,
            bitvec@.len() == n as int,
            forall|k: int| 0 <= k < n ==> bitvec@[k] == ((i >> (k as i128)) & 1 == 1),
        decreases 128 - n,
    {
        bitvec.push((i >> (n as i128)) & 1 == 1);
        n += 1;
    }
    proof {
        assert(bitvec@ =~= i128_bits_seq(i));
    }
    Exp::Bits(bitvec)
}

/// The 64-bit SMT literal of an integer.
pub fn smt_i64(i: i64) -> (r: Exp)
    ensures
        is_i64_lit(r, i),
{
    let mut bitvec: Vec<bool> = Vec::new();
    let mut n: u32 = 0;
    while n < 64
        invariant
            n <= 64,
            bitvec@.len() == n as int,
            forall|k: int| 0 <= k < n ==> bitvec@[k] == ((i >> (k as i64)) & 1 == 1),
        decreases 64 - n,
    {
        bitvec.push((i >> (n as i64)) & 1 == 1);
        n += 1;
    }
    proof {
        assert(bitvec@ =~= i64_bits_seq(i));
    }
    Exp::Bits(bitvec)
}

/// The 8-bit SMT literal of a byte.
pub fn smt_u8(i: u8) -> (r: Exp)
    ensures
        r matches Exp::Bits(v) && v@ == u8_bits_seq(i),
{
    let mut bitvec: Vec<bool> = Vec::new();
    let mut n: u32 = 0;
    while n < 8
        invariant
            n <= 8,
            bitvec@.len() == n as int,
            forall|k: int| 0 <= k < n ==> bitvec@[k] == ((i >> (k as u8)) & 1 == 1),
        decreases 8 - n,
    {
        bitvec.push((i >> (n as u8)) & 1 == 1);
        n += 1;
    }
    proof {
        assert(bitvec@ =~= u8_bits_seq(i));
    }
    Exp::Bits(bitvec)
}

/// A literal of `len` bits whose low `mask_width` bits are set.
pub fn smt_mask_lower(len: usize, mask_width: usize) -> (r: Exp)
    ensures
        r matches Exp::Bits(v) && v@ == mask_lower_seq(len as nat, mask_width as nat),
{
    let mut bitvec: Vec<bool> = Vec::new();
    let mut n: usize = 0;
    while n < len
        invariant
            n <= len,
            bitvec@.len() == n as int,
            forall|k: int| 0 <= k < n ==> bitvec@[k] == (k < mask_width as int),
        decreases len - n,
    {
        bitvec.push(n < mask_width);
        n += 1;
    }
    proof {
        assert(bitvec@ =~= mask_lower_seq(len as nat, mask_width as nat));
    }
    Exp::Bits(bitvec)
}

/// An all-zeros literal of `i` bits.
pub fn smt_zeros(i: i128) -> (r: Exp)
    requires
        0 <= i <= usize::MAX,
    ensures
        r matches Exp::Bits(v) && v@ == Seq::new(i as nat, |k: int| false),
{
    let mut bitvec: Vec<bool> = Vec::new();
    let mut n: usize = 0;
    let len = i as usize;
    while n < len
        invariant
            n <= len,
            bitvec@.len() == n as int,
            forall|k: int| 0 <= k < n ==> !bitvec@[k],
        decreases len - n,
    {
        bitvec.push(false);
        n += 1;
    }
    proof {
        assert(bitvec@ =~= Seq::new(i as nat, |k: int| false));
    }
    Exp::Bits(bitvec)
}

/// An all-ones literal of `i` bits.
pub fn smt_ones(i: i128) -> (r: Exp)
    requires
        0 <= i <= usize::MAX,
    ensures
        r matches Exp::Bits(v) && v@ == Seq::new(i as nat, |k: int| true),
{
    let mut bitvec: Vec<bool> = Vec::new();
    let mut n: usize = 0;
    let len = i as usize;
    while n < len
        invariant
            n <= len,
            bitvec@.len() == n as int,
            forall|k: int| 0 <= k < n ==> bitvec@[k],
        decreases len - n,
    {
        bitvec.push(true);
        n += 1;
    }
    proof {
        assert(bitvec@ =~= Seq::new(i as nat, |k: int| true));
    }
    Exp::Bits(bitvec)
}

/// The SMT literal of a concrete bit vector.
pub fn smt_sbits(bv: Sbits) -> (r: Exp)
    ensures
        is_sbits_lit(r, bv),
{
    Exp::Bits64(bv.lower_u64(), bv.len())
}

/// Convert a base value into its SMT literal; aggregates have no literal
/// form and fail with a type error.
pub fn smt_value(v: &Val) -> (r: Result<Exp, ExecError>)
    ensures
        match r {
            Ok(e) => is_smt_value(v@, e),
            Err(e) => e is Type && !is_smt_base(v@),
        },
        is_smt_base(v@) ==> r is Ok,
{
    match v {
        Val::I128(n) => Ok(smt_i128(*n)),
        Val::I64(n) => Ok(smt_i64(*n)),
        Val::Bits(bv) => Ok(smt_sbits(*bv)),
        Val::Bool(b) => Ok(Exp::Bool(*b)),
        Val::Enum(e) => Ok(Exp::Enum(*e)),
        Val::Symbolic(s) => Ok(Exp::Var(*s)),
        _ => Err(type_error("smt_value")),
    }
}



/// Division of 128-bit integers stays in range except for the minimum
/// value divided by minus one.
proof fn lemma_checked_div_some(a: i128, b: i128)
    requires
        b != 0,
        !(a == i128::MIN && b == -1),
    ensures
        a.checked_div(b) is Some,
        a.checked_rem(b) is Some,
{
    let x = a as int;
    let d = b as int;
    if x == 0 {
    } else if x > 0 && d > 0 {
        lemma_div_nonincreasing(x, d);
        lemma_div_pos_is_pos(x, d);
    } else if x < 0 && d < 0 {
        lemma_div_pos_is_pos(-x, -d);
        if d == -1 {
            // a != i128::MIN, so -x fits below the maximum
            lemma_div_nonincreasing(-x, 1);
        } else {
            lemma_div_is_ordered_by_denominator(-x, 2, -d);
            lemma_div_is_ordered(-x, -(i128::MIN as int), 2);
        }
    } else if x < 0 {
        lemma_div_nonincreasing(-x, d);
        lemma_div_pos_is_pos(-x, d);
    } else {
        lemma_div_nonincreasing(x, -d);
        lemma_div_pos_is_pos(x, -d);
    }
}

/// Truncating division with the wrap of the one overflowing case.
pub open spec fn tdiv_i128(a: i128, b: i128) -> i128
    recommends
        b != 0,
{
    if a == i128::MIN && b == -1 {
        i128::MIN
    } else {
        a.checked_div(b).unwrap()
    }
}

/// Truncating remainder with the wrap of the one overflowing case.
pub open spec fn tmod_i128(a: i128, b: i128) -> i128
    recommends
        b != 0,
{
    if a == i128::MIN && b == -1 {
        0
    } else {
        a.checked_rem(b).unwrap()
    }
}

// 64-bit machine-integer comparisons and arithmetic.

/// Signed less-than over 64-bit machine integers.
pub fn op_lt(x: Val, y: Val, solver: &mut Solver) -> (r: Result<Val, ExecError>)
    requires
        old(solver).wf(),
        old(solver).next_sym() < u32::MAX,
    ensures
        op_lt_post(x@, y@, r, *old(solver), *final(solver)),
{
    match (x, y) {
        (Val::Symbolic(a), Val::Symbolic(b)) => Ok(
            define_result(solver, Exp::Bvslt(Box::new(Exp::Var(a)), Box::new(Exp::Var(b)))),
        ),
        (Val::Symbolic(a), Val::I64(b)) => Ok(
            define_result(solver, Exp::Bvslt(Box::new(Exp::Var(a)), Box::new(smt_i64(b)))),
        ),
        (Val::I64(a), Val::Symbolic(b)) => Ok(
            define_result(solver, Exp::Bvslt(Box::new(smt_i64(a)), Box::new(Exp::Var(b)))),
        ),
        (Val::I64(a), Val::I64(b)) => Ok(Val::Bool(a < b)),
        _ => Err(type_error("op_lt")),
    }
}

/// Signed greater-than over 64-bit machine integers.
pub fn op_gt(x: Val, y: Val, solver: &mut Solver) -> (r: Result<Val, ExecError>)
    requires
        old(solver).wf(),
        old(solver).next_sym() < u32::MAX,
    ensures
        op_gt_post(x@, y@, r, *old(solver), *final(solver)),
{
    match (x, y) {
        (Val::Symbolic(a), Val::Symbolic(b)) => Ok(
            define_result(solver, Exp::Bvsgt(Box::new(Exp::Var(a)), Box::new(Exp::Var(b)))),
        ),
        (Val::Symbolic(a), Val::I64(b)) => Ok(
            define_result(solver, Exp::Bvsgt(Box::new(Exp::Var(a)), Box::new(smt_i64(b)))),
        ),
        (Val::I64(a), Val::Symbolic(b)) => Ok(
            define_result(solver, Exp::Bvsgt(Box::new(smt_i64(a)), Box::new(Exp::Var(b)))),
        ),
        (Val::I64(a), Val::I64(b)) => Ok(Val::Bool(a > b)),
        _ => Err(type_error("op_gt")),
    }
}

/// Signed at-most over 64-bit machine integers.
pub fn op_lteq(x: Val, y: Val, solver: &mut Solver) -> (r: Result<Val, ExecError>)
    requires
        old(solver).wf(),
        old(solver).next_sym() < u32::MAX,
    ensures
        op_lteq_post(x@, y@, r, *old(solver), *final(solver)),
{
    match (x, y) {
        (Val::Symbolic(a), Val::Symbolic(b)) => Ok(
            define_result(solver, Exp::Bvsle(Box::new(Exp::Var(a)), Box::new(Exp::Var(b)))),
        ),
        (Val::Symbolic(a), Val::I64(b)) => Ok(
            define_result(solver, Exp::Bvsle(Box::new(Exp::Var(a)), Box::new(smt_i64(b)))),
        ),
        (Val::I64(a), Val::Symbolic(b)) => Ok(
            define_result(solver, Exp::Bvsle(Box::new(smt_i64(a)), Box::new(Exp::Var(b)))),
        ),
        (Val::I64(a), Val::I64(b)) => Ok(Val::Bool(a <= b)),
        _ => Err(type_error("op_lteq")),
    }
}

/// Signed at-least over 64-bit machine integers.
pub fn op_gteq(x: Val, y: Val, solver: &mut Solver) -> (r: Result<Val, ExecError>)
    requires
        old(solver).wf(),
        old(solver).next_sym() < u32::MAX,
    ensures
        op_gteq_post(x@, y@, r, *old(solver), *final(solver)),
{
    match (x, y) {
        (Val::Symbolic(a), Val::Symbolic(b)) => Ok(
            define_result(solver, Exp::Bvsge(Box::new(Exp::Var(a)), Box::new(Exp::Var(b)))),
        ),
        (Val::Symbolic(a), Val::I64(b)) => Ok(
            define_result(solver, Exp::Bvsge(Box::new(Exp::Var(a)), Box::new(smt_i64(b)))),
        ),
        (Val::I64(a), Val::Symbolic(b)) => Ok(
            define_result(solver, Exp::Bvsge(Box::new(smt_i64(a)), Box::new(Exp::Var(b)))),
        ),
        (Val::I64(a), Val::I64(b)) => Ok(Val::Bool(a >= b)),
        _ => Err(type_error("op_gteq")),
    }
}

/// Wrapping addition of 64-bit machine integers.
pub fn op_add(x: Val, y: Val, solver: &mut Solver) -> (r: Result<Val, ExecError>)
    requires
        old(solver).wf(),
        old(solver).next_sym() < u32::MAX,
    ensures
        op_add_post(x@, y@, r, *old(solver), *final(solver)),
{
    match (x, y) {
        (Val::Symbolic(a), Val::Symbolic(b)) => Ok(
            define_result(solver, Exp::Bvadd(Box::new(Exp::Var(a)), Box::new(Exp::Var(b)))),
        ),
        (Val::Symbolic(a), Val::I64(b)) => Ok(
            define_result(solver, Exp::Bvadd(Box::new(Exp::Var(a)), Box::new(smt_i64(b)))),
        ),
        (Val::I64(a), Val::Symbolic(b)) => Ok(
            define_result(solver, Exp::Bvadd(Box::new(smt_i64(a)), Box::new(Exp::Var(b)))),
        ),
        (Val::I64(a), Val::I64(b)) => Ok(Val::I64(a.wrapping_add(b))),
        _ => Err(type_error("op_add")),
    }
}

/// Wrapping subtraction of 64-bit machine integers.
pub fn op_sub(x: Val, y: Val, solver: &mut Solver) -> (r: Result<Val, ExecError>)
    requires
        old(solver).wf(),
        old(solver).next_sym() < u32::MAX,
    ensures
        op_sub_post(x@, y@, r, *old(solver), *final(solver)),
{
    match (x, y) {
        (Val::Symbolic(a), Val::Symbolic(b)) => Ok(
            define_result(solver, Exp::Bvsub(Box::new(Exp::Var(a)), Box::new(Exp::Var(b)))),
        ),
        (Val::Symbolic(a), Val::I64(b)) => Ok(
            define_result(solver, Exp::Bvsub(Box::new(Exp::Var(a)), Box::new(smt_i64(b)))),
        ),
        (Val::I64(a), Val::Symbolic(b)) => Ok(
            define_result(solver, Exp::Bvsub(Box::new(smt_i64(a)), Box::new(Exp::Var(b)))),
        ),
        (Val::I64(a), Val::I64(b)) => Ok(Val::I64(a.wrapping_sub(b))),
        _ => Err(type_error("op_sub")),
    }
}

// Boolean connectives.

/// Boolean negation.
pub fn not_bool(x: Val, solver: &mut Solver) -> (r: Result<Val, ExecError>)
    requires
        old(solver).wf(),
        old(solver).next_sym() < u32::MAX,
    ensures
        not_bool_post(x@, r, *old(solver), *final(solver)),
{
    match x {
        Val::Symbolic(a) => Ok(define_result(solver, Exp::Not(Box::new(Exp::Var(a))))),
        Val::Bool(a) => Ok(Val::Bool(!a)),
        _ => Err(type_error("not")),
    }
}

/// Boolean conjunction.
pub fn and_bool(x: Val, y: Val, solver: &mut Solver) -> (r: Result<Val, ExecError>)
    requires
        old(solver).wf(),
        old(solver).next_sym() < u32::MAX,
    ensures
        and_bool_post(x@, y@, r, *old(solver), *final(solver)),
{
    match (x, y) {
        (Val::Symbolic(a), Val::Symbolic(b)) => Ok(
            define_result(solver, Exp::And(Box::new(Exp::Var(a)), Box::new(Exp::Var(b)))),
        ),
        (Val::Symbolic(a), Val::Bool(b)) => Ok(
            define_result(solver, Exp::And(Box::new(Exp::Var(a)), Box::new(Exp::Bool(b)))),
        ),
        (Val::Bool(a), Val::Symbolic(b)) => Ok(
            define_result(solver, Exp::And(Box::new(Exp::Bool(a)), Box::new(Exp::Var(b)))),
        ),
        (Val::Bool(a), Val::Bool(b)) => Ok(Val::Bool(a && b)),
        _ => Err(type_error("and_bool")),
    }
}

/// Boolean disjunction.
pub fn or_bool(x: Val, y: Val, solver: &mut Solver) -> (r: Result<Val, ExecError>)
    requires
        old(solver).wf(),
        old(solver).next_sym() < u32::MAX,
    ensures
        or_bool_post(x@, y@, r, *old(solver), *final(solver)),
{
    match (x, y) {
        (Val::Symbolic(a), Val::Symbolic(b)) => Ok(
            define_result(solver, Exp::Or(Box::new(Exp::Var(a)), Box::new(Exp::Var(b)))),
        ),
        (Val::Symbolic(a), Val::Bool(b)) => Ok(
            define_result(solver, Exp::Or(Box::new(Exp::Var(a)), Box::new(Exp::Bool(b)))),
        ),
        (Val::Bool(a), Val::Symbolic(b)) => Ok(
            define_result(solver, Exp::Or(Box::new(Exp::Bool(a)), Box::new(Exp::Var(b)))),
        ),
        (Val::Bool(a), Val::Bool(b)) => Ok(Val::Bool(a || b)),
        _ => Err(type_error("or_bool")),
    }
}

/// Boolean equality.
pub fn eq_bool(x: Val, y: Val, solver: &mut Solver) -> (r: Result<Val, ExecError>)
    requires
        old(solver).wf(),
        old(solver).next_sym() < u32::MAX,
    ensures
        eq_bool_post(x@, y@, r, *old(solver), *final(solver)),
{
    match (x, y) {
        (Val::Symbolic(a), Val::Symbolic(b)) => Ok(
            define_result(solver, Exp::Eq(Box::new(Exp::Var(a)), Box::new(Exp::Var(b)))),
        ),
        (Val::Symbolic(a), Val::Bool(b)) => Ok(
            define_result(solver, Exp::Eq(Box::new(Exp::Var(a)), Box::new(Exp::Bool(b)))),
        ),
        (Val::Bool(a), Val::Symbolic(b)) => Ok(
            define_result(solver, Exp::Eq(Box::new(Exp::Bool(a)), Box::new(Exp::Var(b)))),
        ),
        (Val::Bool(a), Val::Bool(b)) => Ok(Val::Bool(a == b)),
        _ => Err(type_error("eq_bool")),
    }
}

// 128-bit integer comparisons.

/// Equality of integers.
pub fn eq_int(x: Val, y: Val, solver: &mut Solver) -> (r: Result<Val, ExecError>)
    requires
        old(solver).wf(),
        old(solver).next_sym() < u32::MAX,
    ensures
        eq_int_post(x@, y@, r, *old(solver), *final(solver)),
{
    match (x, y) {
        (Val::Symbolic(a), Val::Symbolic(b)) => Ok(
            define_result(solver, Exp::Eq(Box::new(Exp::Var(a)), Box::new(Exp::Var(b)))),
        ),
        (Val::Symbolic(a), Val::I128(b)) => Ok(
            define_result(solver, Exp::Eq(Box::new(Exp::Var(a)), Box::new(smt_i128(b)))),
        ),
        (Val::I128(a), Val::Symbolic(b)) => Ok(
            define_result(solver, Exp::Eq(Box::new(smt_i128(a)), Box::new(Exp::Var(b)))),
        ),
        (Val::I128(a), Val::I128(b)) => Ok(Val::Bool(a == b)),
        _ => Err(type_error("eq_int")),
    }
}

/// At-most over integers.
pub fn lteq_int(x: Val, y: Val, solver: &mut Solver) -> (r: Result<Val, ExecError>)
    requires
        old(solver).wf(),
        old(solver).next_sym() < u32::MAX,
    ensures
        lteq_int_post(x@, y@, r, *old(solver), *final(solver)),
{
    match (x, y) {
        (Val::Symbolic(a), Val::Symbolic(b)) => Ok(
            define_result(solver, Exp::Bvsle(Box::new(Exp::Var(a)), Box::new(Exp::Var(b)))),
        ),
        (Val::Symbolic(a), Val::I128(b)) => Ok(
            define_result(solver, Exp::Bvsle(Box::new(Exp::Var(a)), Box::new(smt_i128(b)))),
        ),
        (Val::I128(a), Val::Symbolic(b)) => Ok(
            define_result(solver, Exp::Bvsle(Box::new(smt_i128(a)), Box::new(Exp::Var(b)))),
        ),
        (Val::I128(a), Val::I128(b)) => Ok(Val::Bool(a <= b)),
        _ => Err(type_error("lteq")),
    }
}

/// At-least over integers.
pub fn gteq_int(x: Val, y: Val, solver: &mut Solver) -> (r: Result<Val, ExecError>)
    requires
        old(solver).wf(),
        old(solver).next_sym() < u32::MAX,
    ensures
        gteq_int_post(x@, y@, r, *old(solver), *final(solver)),
{
    match (x, y) {
        (Val::Symbolic(a), Val::Symbolic(b)) => Ok(
            define_result(solver, Exp::Bvsge(Box::new(Exp::Var(a)), Box::new(Exp::Var(b)))),
        ),
        (Val::Symbolic(a), Val::I128(b)) => Ok(
            define_result(solver, Exp::Bvsge(Box::new(Exp::Var(a)), Box::new(smt_i128(b)))),
        ),
        (Val::I128(a), Val::Symbolic(b)) => Ok(
            define_result(solver, Exp::Bvsge(Box::new(smt_i128(a)), Box::new(Exp::Var(b)))),
        ),
        (Val::I128(a), Val::I128(b)) => Ok(Val::Bool(a >= b)),
        _ => Err(type_error("gteq")),
    }
}

/// Less-than over integers.
pub fn lt_int(x: Val, y: Val, solver: &mut Solver) -> (r: Result<Val, ExecError>)
    requires
        old(solver).wf(),
        old(solver).next_sym() < u32::MAX,
    ensures
        lt_int_post(x@, y@, r, *old(solver), *final(solver)),
{
    match (x, y) {
        (Val::Symbolic(a), Val::Symbolic(b)) => Ok(
            define_result(solver, Exp::Bvslt(Box::new(Exp::Var(a)), Box::new(Exp::Var(b)))),
        ),
        (Val::Symbolic(a), Val::I128(b)) => Ok(
            define_result(solver, Exp::Bvslt(Box::new(Exp::Var(a)), Box::new(smt_i128(b)))),
        ),
        (Val::I128(a), Val::Symbolic(b)) => Ok(
            define_result(solver, Exp::Bvslt(Box::new(smt_i128(a)), Box::new(Exp::Var(b)))),
        ),
        (Val::I128(a), Val::I128(b)) => Ok(Val::Bool(a < b)),
        _ => Err(type_error("lt")),
    }
}

/// Greater-than over integers.
pub fn gt_int(x: Val, y: Val, solver: &mut Solver) -> (r: Result<Val, ExecError>)
    requires
        old(solver).wf(),
        old(solver).next_sym() < u32::MAX,
    ensures
        gt_int_post(x@, y@, r, *old(solver), *final(solver)),
{
    match (x, y) {
        (Val::Symbolic(a), Val::Symbolic(b)) => Ok(
            define_result(solver, Exp::Bvsgt(Box::new(Exp::Var(a)), Box::new(Exp::Var(b)))),
        ),
        (Val::Symbolic(a), Val::I128(b)) => Ok(
            define_result(solver, Exp::Bvsgt(Box::new(Exp::Var(a)), Box::new(smt_i128(b)))),
        ),
        (Val::I128(a), Val::Symbolic(b)) => Ok(
            define_result(solver, Exp::Bvsgt(Box::new(smt_i128(a)), Box::new(Exp::Var(b)))),
        ),
        (Val::I128(a), Val::I128(b)) => Ok(Val::Bool(a > b)),
        _ => Err(type_error("gt")),
    }
}

// 128-bit integer arithmetic: concrete on a wrapping fast path, symbolic
// over 128-bit SMT terms.

/// Wrapping subtraction of integers.
pub fn sub_int(x: Val, y: Val, solver: &mut Solver) -> (r: Result<Val, ExecError>)
    requires
        old(solver).wf(),
        old(solver).next_sym() < u32::MAX,
    ensures
        sub_int_post(x@, y@, r, *old(solver), *final(solver)),
{
    match (x, y) {
        (Val::Symbolic(a), Val::Symbolic(b)) => Ok(
            define_result(solver, Exp::Bvsub(Box::new(Exp::Var(a)), Box::new(Exp::Var(b)))),
        ),
        (Val::Symbolic(a), Val::I128(b)) => Ok(
            define_result(solver, Exp::Bvsub(Box::new(Exp::Var(a)), Box::new(smt_i128(b)))),
        ),
        (Val::I128(a), Val::Symbolic(b)) => Ok(
            define_result(solver, Exp::Bvsub(Box::new(smt_i128(a)), Box::new(Exp::Var(b)))),
        ),
        (Val::I128(a), Val::I128(b)) => Ok(Val::I128(a.wrapping_sub(b))),
        _ => Err(type_error("sub_int")),
    }
}

/// Wrapping multiplication of integers.
pub fn mult_int(x: Val, y: Val, solver: &mut Solver) -> (r: Result<Val, ExecError>)
    requires
        old(solver).wf(),
        old(solver).next_sym() < u32::MAX,
    ensures
        mult_int_post(x@, y@, r, *old(solver), *final(solver)),
{
    match (x, y) {
        (Val::Symbolic(a), Val::Symbolic(b)) => Ok(
            define_result(solver, Exp::Bvmul(Box::new(Exp::Var(a)), Box::new(Exp::Var(b)))),
        ),
        (Val::Symbolic(a), Val::I128(b)) => Ok(
            define_result(solver, Exp::Bvmul(Box::new(Exp::Var(a)), Box::new(smt_i128(b)))),
        ),
        (Val::I128(a), Val::Symbolic(b)) => Ok(
            define_result(solver, Exp::Bvmul(Box::new(smt_i128(a)), Box::new(Exp::Var(b)))),
        ),
        (Val::I128(a), Val::I128(b)) => Ok(Val::I128(a.wrapping_mul(b))),
        _ => Err(type_error("mult_int")),
    }
}

/// Wrapping negation of an integer.
pub fn neg_int(x: Val, solver: &mut Solver) -> (r: Result<Val, ExecError>)
    requires
        old(solver).wf(),
        old(solver).next_sym() < u32::MAX,
    ensures
        neg_int_post(x@, r, *old(solver), *final(solver)),
{
    match x {
        Val::Symbolic(a) => Ok(define_result(solver, Exp::Bvneg(Box::new(Exp::Var(a))))),
        Val::I128(a) => Ok(Val::I128(0i128.wrapping_sub(a))),
        _ => Err(type_error("neg_int")),
    }
}

/// Truncating division of integers, wrapping on overflow. A concrete zero divisor is excluded by precondition.
pub fn tdiv_int(x: Val, y: Val, solver: &mut Solver) -> (r: Result<Val, ExecError>)
    requires
        old(solver).wf(),
        old(solver).next_sym() < u32::MAX,
        !(x@ matches AbsVal::I128(_) && y@ == AbsVal::I128(0i128)),
    ensures
        tdiv_int_post(x@, y@, r, *old(solver), *final(solver)),
{
    match (x, y) {
        (Val::Symbolic(a), Val::Symbolic(b)) => Ok(
            define_result(solver, Exp::Bvsdiv(Box::new(Exp::Var(a)), Box::new(Exp::Var(b)))),
        ),
        (Val::Symbolic(a), Val::I128(b)) => Ok(
            define_result(solver, Exp::Bvsdiv(Box::new(Exp::Var(a)), Box::new(smt_i128(b)))),
        ),
        (Val::I128(a), Val::Symbolic(b)) => Ok(
            define_result(solver, Exp::Bvsdiv(Box::new(smt_i128(a)), Box::new(Exp::Var(b)))),
        ),
        (Val::I128(a), Val::I128(b)) => {
            proof {
                if !(a == i128::MIN && b == -1) {
                    lemma_checked_div_some(a, b);
                }
            }
            let q: i128 = match a.checked_div(b) {
                Some(q) => q,
                None => i128::MIN,
            };
            proof {
                assert(q == tdiv_i128(a, b));
            }
            Ok(Val::I128(q))
        },
        _ => Err(type_error("tdiv_int")),
    }
}

/// Truncating remainder of integers, wrapping on overflow. A concrete zero divisor is excluded by precondition.
pub fn tmod_int(x: Val, y: Val, solver: &mut Solver) -> (r: Result<Val, ExecError>)
    requires
        old(solver).wf(),
        old(solver).next_sym() < u32::MAX,
        !(x@ matches AbsVal::I128(_) && y@ == AbsVal::I128(0i128)),
    ensures
        tmod_int_post(x@, y@, r, *old(solver), *final(solver)),
{
    match (x, y) {
        (Val::Symbolic(a), Val::Symbolic(b)) => Ok(
            define_result(solver, Exp::Bvsmod(Box::new(Exp::Var(a)), Box::new(Exp::Var(b)))),
        ),
        (Val::Symbolic(a), Val::I128(b)) => Ok(
            define_result(solver, Exp::Bvsmod(Box::new(Exp::Var(a)), Box::new(smt_i128(b)))),
        ),
        (Val::I128(a), Val::Symbolic(b)) => Ok(
            define_result(solver, Exp::Bvsmod(Box::new(smt_i128(a)), Box::new(Exp::Var(b)))),
        ),
        (Val::I128(a), Val::I128(b)) => {
            proof {
                if !(a == i128::MIN && b == -1) {
                    lemma_checked_div_some(a, b);
                }
            }
            match a.checked_rem(b) {
                Some(q) => Ok(Val::I128(q)),
                None => Ok(Val::I128(0)),
            }
        },
        _ => Err(type_error("tmod_int")),
    }
}

/// Division of integers whose symbolic form is unsigned division. A concrete zero divisor is excluded by precondition.
pub fn udiv_int(x: Val, y: Val, solver: &mut Solver) -> (r: Result<Val, ExecError>)
    requires
        old(solver).wf(),
        old(solver).next_sym() < u32::MAX,
        !(x@ matches AbsVal::I128(_) && y@ == AbsVal::I128(0i128)),
    ensures
        udiv_int_post(x@, y@, r, *old(solver), *final(solver)),
{
    match (x, y) {
        (Val::Symbolic(a), Val::Symbolic(b)) => Ok(
            define_result(solver, Exp::Bvudiv(Box::new(Exp::Var(a)), Box::new(Exp::Var(b)))),
        ),
        (Val::Symbolic(a), Val::I128(b)) => Ok(
            define_result(solver, Exp::Bvudiv(Box::new(Exp::Var(a)), Box::new(smt_i128(b)))),
        ),
        (Val::I128(a), Val::Symbolic(b)) => Ok(
            define_result(solver, Exp::Bvudiv(Box::new(smt_i128(a)), Box::new(Exp::Var(b)))),
        ),
        (Val::I128(a), Val::I128(b)) => {
            proof {
                if !(a == i128::MIN && b == -1) {
                    lemma_checked_div_some(a, b);
                }
            }
            let q: i128 = match a.checked_div(b) {
                Some(q) => q,
                None => i128::MIN,
            };
            proof {
                assert(q == tdiv_i128(a, b));
            }
            Ok(Val::I128(q))
        },
        _ => Err(type_error("udiv_int")),
    }
}

/// Left shift of an integer by an amount taken modulo 128.
pub fn shl_int(x: Val, y: Val, solver: &mut Solver) -> (r: Result<Val, ExecError>)
    requires
        old(solver).wf(),
        old(solver).next_sym() < u32::MAX,
    ensures
        shl_int_post(x@, y@, r, *old(solver), *final(solver)),
{
    match (x, y) {
        (Val::Symbolic(a), Val::Symbolic(b)) => Ok(
            define_result(solver, Exp::Bvshl(Box::new(Exp::Var(a)), Box::new(Exp::Var(b)))),
        ),
        (Val::Symbolic(a), Val::I128(b)) => Ok(
            define_result(solver, Exp::Bvshl(Box::new(Exp::Var(a)), Box::new(smt_i128(b)))),
        ),
        (Val::I128(a), Val::Symbolic(b)) => Ok(
            define_result(solver, Exp::Bvshl(Box::new(smt_i128(a)), Box::new(Exp::Var(b)))),
        ),
        (Val::I128(a), Val::I128(b)) => Ok(Val::I128(a.wrapping_shl(b as u32))),
        _ => Err(type_error("shl_int")),
    }
}

/// Arithmetic right shift of an integer by an amount taken modulo 128.
pub fn shr_int(x: Val, y: Val, solver: &mut Solver) -> (r: Result<Val, ExecError>)
    requires
        old(solver).wf(),
        old(solver).next_sym() < u32::MAX,
    ensures
        shr_int_post(x@, y@, r, *old(solver), *final(solver)),
{
    match (x, y) {
        (Val::Symbolic(a), Val::Symbolic(b)) => Ok(
            define_result(solver, Exp::Bvashr(Box::new(Exp::Var(a)), Box::new(Exp::Var(b)))),
        ),
        (Val::Symbolic(a), Val::I128(b)) => Ok(
            define_result(solver, Exp::Bvashr(Box::new(Exp::Var(a)), Box::new(smt_i128(b)))),
        ),
        (Val::I128(a), Val::Symbolic(b)) => Ok(
            define_result(solver, Exp::Bvashr(Box::new(smt_i128(a)), Box::new(Exp::Var(b)))),
        ),
        (Val::I128(a), Val::I128(b)) => Ok(Val::I128(a.wrapping_shr(b as u32))),
        _ => Err(type_error("shr_int")),
    }
}

/// Left shift of a 64-bit machine integer by an amount taken modulo 64.
pub fn shl_mach_int(x: Val, y: Val, solver: &mut Solver) -> (r: Result<Val, ExecError>)
    requires
        old(solver).wf(),
        old(solver).next_sym() < u32::MAX,
    ensures
        shl_mach_int_post(x@, y@, r, *old(solver), *final(solver)),
{
    match (x, y) {
        (Val::Symbolic(a), Val::Symbolic(b)) => Ok(
            define_result(solver, Exp::Bvshl(Box::new(Exp::Var(a)), Box::new(Exp::Var(b)))),
        ),
        (Val::Symbolic(a), Val::I64(b)) => Ok(
            define_result(solver, Exp::Bvshl(Box::new(Exp::Var(a)), Box::new(smt_i64(b)))),
        ),
        (Val::I64(a), Val::Symbolic(b)) => Ok(
            define_result(solver, Exp::Bvshl(Box::new(smt_i64(a)), Box::new(Exp::Var(b)))),
        ),
        (Val::I64(a), Val::I64(b)) => Ok(Val::I64(a.wrapping_shl(b as u32))),
        _ => Err(type_error("shl_mach_int")),
    }
}

/// Arithmetic right shift of a 64-bit machine integer by an amount taken modulo 64.
pub fn shr_mach_int(x: Val, y: Val, solver: &mut Solver) -> (r: Result<Val, ExecError>)
    requires
        old(solver).wf(),
        old(solver).next_sym() < u32::MAX,
    ensures
        shr_mach_int_post(x@, y@, r, *old(solver), *final(solver)),
{
    match (x, y) {
        (Val::Symbolic(a), Val::Symbolic(b)) => Ok(
            define_result(solver, Exp::Bvashr(Box::new(Exp::Var(a)), Box::new(Exp::Var(b)))),
        ),
        (Val::Symbolic(a), Val::I64(b)) => Ok(
            define_result(solver, Exp::Bvashr(Box::new(Exp::Var(a)), Box::new(smt_i64(b)))),
        ),
        (Val::I64(a), Val::Symbolic(b)) => Ok(
            define_result(solver, Exp::Bvashr(Box::new(smt_i64(a)), Box::new(Exp::Var(b)))),
        ),
        (Val::I64(a), Val::I64(b)) => Ok(Val::I64(a.wrapping_shr(b as u32))),
        _ => Err(type_error("shr_mach_int")),
    }
}

// Bit-vector logic and modular arithmetic.

/// Equality of bit vectors.
pub fn eq_bits(x: Val, y: Val, solver: &mut Solver) -> (r: Result<Val, ExecError>)
    requires
        old(solver).wf(),
        old(solver).next_sym() < u32::MAX,
    ensures
        eq_bits_post(x@, y@, r, *old(solver), *final(solver)),
{
    match (x, y) {
        (Val::Symbolic(a), Val::Symbolic(b)) => Ok(
            define_result(solver, Exp::Eq(Box::new(Exp::Var(a)), Box::new(Exp::Var(b)))),
        ),
        (Val::Symbolic(a), Val::Bits(b)) => Ok(
            define_result(solver, Exp::Eq(Box::new(Exp::Var(a)), Box::new(smt_sbits(b)))),
        ),
        (Val::Bits(a), Val::Symbolic(b)) => Ok(
            define_result(solver, Exp::Eq(Box::new(smt_sbits(a)), Box::new(Exp::Var(b)))),
        ),
        (Val::Bits(a), Val::Bits(b)) => Ok(Val::Bool(a == b)),
        _ => Err(type_error("eq_bits")),
    }
}

/// Disequality of bit vectors.
pub fn neq_bits(x: Val, y: Val, solver: &mut Solver) -> (r: Result<Val, ExecError>)
    requires
        old(solver).wf(),
        old(solver).next_sym() < u32::MAX,
    ensures
        neq_bits_post(x@, y@, r, *old(solver), *final(solver)),
{
    match (x, y) {
        (Val::Symbolic(a), Val::Symbolic(b)) => Ok(
            define_result(solver, Exp::Neq(Box::new(Exp::Var(a)), Box::new(Exp::Var(b)))),
        ),
        (Val::Symbolic(a), Val::Bits(b)) => Ok(
            define_result(solver, Exp::Neq(Box::new(Exp::Var(a)), Box::new(smt_sbits(b)))),
        ),
        (Val::Bits(a), Val::Symbolic(b)) => Ok(
            define_result(solver, Exp::Neq(Box::new(smt_sbits(a)), Box::new(Exp::Var(b)))),
        ),
        (Val::Bits(a), Val::Bits(b)) => Ok(Val::Bool(a != b)),
        _ => Err(type_error("neq_bits")),
    }
}

/// Bitwise exclusive or of bit vectors of one width.
pub fn xor_bits(x: Val, y: Val, solver: &mut Solver) -> (r: Result<Val, ExecError>)
    requires
        old(solver).wf(),
        old(solver).next_sym() < u32::MAX,
        abs_wf(x@),
        abs_wf(y@),
    ensures
        xor_bits_post(x@, y@, r, *old(solver), *final(solver)),
{
    match (x, y) {
        (Val::Symbolic(a), Val::Symbolic(b)) => Ok(
            define_result(solver, Exp::Bvxor(Box::new(Exp::Var(a)), Box::new(Exp::Var(b)))),
        ),
        (Val::Symbolic(a), Val::Bits(b)) => Ok(
            define_result(solver, Exp::Bvxor(Box::new(Exp::Var(a)), Box::new(smt_sbits(b)))),
        ),
        (Val::Bits(a), Val::Symbolic(b)) => Ok(
            define_result(solver, Exp::Bvxor(Box::new(smt_sbits(a)), Box::new(Exp::Var(b)))),
        ),
        (Val::Bits(a), Val::Bits(b)) => {
            if a.len() == b.len() {
                Ok(Val::Bits(a.bitxor(b)))
            } else {
                Err(type_error("xor_bits"))
            }
        },
        _ => Err(type_error("xor_bits")),
    }
}

/// Bitwise disjunction of bit vectors of one width.
pub fn or_bits(x: Val, y: Val, solver: &mut Solver) -> (r: Result<Val, ExecError>)
    requires
        old(solver).wf(),
        old(solver).next_sym() < u32::MAX,
        abs_wf(x@),
        abs_wf(y@),
    ensures
        or_bits_post(x@, y@, r, *old(solver), *final(solver)),
{
    match (x, y) {
        (Val::Symbolic(a), Val::Symbolic(b)) => Ok(
            define_result(solver, Exp::Bvor(Box::new(Exp::Var(a)), Box::new(Exp::Var(b)))),
        ),
        (Val::Symbolic(a), Val::Bits(b)) => Ok(
            define_result(solver, Exp::Bvor(Box::new(Exp::Var(a)), Box::new(smt_sbits(b)))),
        ),
        (Val::Bits(a), Val::Symbolic(b)) => Ok(
            define_result(solver, Exp::Bvor(Box::new(smt_sbits(a)), Box::new(Exp::Var(b)))),
        ),
        (Val::Bits(a), Val::Bits(b)) => {
            if a.len() == b.len() {
                Ok(Val::Bits(a.bitor(b)))
            } else {
                Err(type_error("or_bits"))
            }
        },
        _ => Err(type_error("or_bits")),
    }
}

/// Bitwise conjunction of bit vectors of one width.
pub fn and_bits(x: Val, y: Val, solver: &mut Solver) -> (r: Result<Val, ExecError>)
    requires
        old(solver).wf(),
        old(solver).next_sym() < u32::MAX,
        abs_wf(x@),
        abs_wf(y@),
    ensures
        and_bits_post(x@, y@, r, *old(solver), *final(solver)),
{
    match (x, y) {
        (Val::Symbolic(a), Val::Symbolic(b)) => Ok(
            define_result(solver, Exp::Bvand(Box::new(Exp::Var(a)), Box::new(Exp::Var(b)))),
        ),
        (Val::Symbolic(a), Val::Bits(b)) => Ok(
            define_result(solver, Exp::Bvand(Box::new(Exp::Var(a)), Box::new(smt_sbits(b)))),
        ),
        (Val::Bits(a), Val::Symbolic(b)) => Ok(
            define_result(solver, Exp::Bvand(Box::new(smt_sbits(a)), Box::new(Exp::Var(b)))),
        ),
        (Val::Bits(a), Val::Bits(b)) => {
            if a.len() == b.len() {
                Ok(Val::Bits(a.bitand(b)))
            } else {
                Err(type_error("and_bits"))
            }
        },
        _ => Err(type_error("and_bits")),
    }
}

/// Modular addition of bit vectors of one width.
pub fn add_bits(x: Val, y: Val, solver: &mut Solver) -> (r: Result<Val, ExecError>)
    requires
        old(solver).wf(),
        old(solver).next_sym() < u32::MAX,
        abs_wf(x@),
        abs_wf(y@),
    ensures
        add_bits_post(x@, y@, r, *old(solver), *final(solver)),
{
    match (x, y) {
        (Val::Symbolic(a), Val::Symbolic(b)) => Ok(
            define_result(solver, Exp::Bvadd(Box::new(Exp::Var(a)), Box::new(Exp::Var(b)))),
        ),
        (Val::Symbolic(a), Val::Bits(b)) => Ok(
            define_result(solver, Exp::Bvadd(Box::new(Exp::Var(a)), Box::new(smt_sbits(b)))),
        ),
        (Val::Bits(a), Val::Symbolic(b)) => Ok(
            define_result(solver, Exp::Bvadd(Box::new(smt_sbits(a)), Box::new(Exp::Var(b)))),
        ),
        (Val::Bits(a), Val::Bits(b)) => {
            if a.len() == b.len() {
                Ok(Val::Bits(a.add(b)))
            } else {
                Err(type_error("add_bits"))
            }
        },
        _ => Err(type_error("add_bits")),
    }
}

/// Modular subtraction of bit vectors of one width.
pub fn sub_bits(x: Val, y: Val, solver: &mut Solver) -> (r: Result<Val, ExecError>)
    requires
        old(solver).wf(),
        old(solver).next_sym() < u32::MAX,
        abs_wf(x@),
        abs_wf(y@),
    ensures
        sub_bits_post(x@, y@, r, *old(solver), *final(solver)),
{
    match (x, y) {
        (Val::Symbolic(a), Val::Symbolic(b)) => Ok(
            define_result(solver, Exp::Bvsub(Box::new(Exp::Var(a)), Box::new(Exp::Var(b)))),
        ),
        (Val::Symbolic(a), Val::Bits(b)) => Ok(
            define_result(solver, Exp::Bvsub(Box::new(Exp::Var(a)), Box::new(smt_sbits(b)))),
        ),
        (Val::Bits(a), Val::Symbolic(b)) => Ok(
            define_result(solver, Exp::Bvsub(Box::new(smt_sbits(a)), Box::new(Exp::Var(b)))),
        ),
        (Val::Bits(a), Val::Bits(b)) => {
            if a.len() == b.len() {
                Ok(Val::Bits(a.sub(b)))
            } else {
                Err(type_error("sub_bits"))
            }
        },
        _ => Err(type_error("sub_bits")),
    }
}

/// Bitwise complement of a bit vector.
pub fn not_bits(x: Val, solver: &mut Solver) -> (r: Result<Val, ExecError>)
    requires
        old(solver).wf(),
        old(solver).next_sym() < u32::MAX,
        abs_wf(x@),
    ensures
        not_bits_post(x@, r, *old(solver), *final(solver)),
{
    match x {
        Val::Symbolic(a) => Ok(define_result(solver, Exp::Bvnot(Box::new(Exp::Var(a))))),
        Val::Bits(a) => Ok(Val::Bits(a.bitnot())),
        _ => Err(type_error("not_bits")),
    }
}


/// The queued verdict a satisfiability check will see next.
pub open spec fn head_answer(a: Solver) -> SmtResult {
    if a.answers().len() > 0 {
        a.answers()[0]
    } else {
        SmtResult::Unknown
    }
}

/// The solver after one satisfiability check: the front answer is consumed
/// and nothing else changes.
pub open spec fn pops_answer(a: Solver, b: Solver) -> bool {
    &&& b.next_sym() == a.next_sym()
    &&& b.trace() == a.trace()
    &&& b.sorts() == a.sorts()
    &&& b.events() == a.events()
    &&& b.cycles() == a.cycles()
    &&& if a.answers().len() > 0 {
        b.answers() == a.answers().drop_first()
    } else {
        b.answers() == a.answers()
    }
}

/// Exactly one assertion was appended to the trace.
pub open spec fn appends_assert(a: Solver, b: Solver) -> bool {
    &&& b.next_sym() == a.next_sym()
    &&& b.sorts() == a.sorts()
    &&& b.events() == a.events()
    &&& b.cycles() == a.cycles()
    &&& b.answers() == a.answers()
    &&& b.trace().len() == a.trace().len() + 1
    &&& b.trace().subrange(0, a.trace().len() as int) == a.trace()
    &&& b.trace().last() is Assert
}

/// The term of the assertion at the end of the trace.
pub open spec fn last_assert(b: Solver) -> Exp {
    b.trace().last()->Assert_0
}

/// Append an assertion of `e` to the trace.
fn add_assert(solver: &mut Solver, e: Exp)
    requires
        old(solver).wf(),
    ensures
        final(solver).wf(),
        appends_assert(*old(solver), *final(solver)),
        last_assert(*final(solver)) == e,
{
    let ghost a = *solver;
    solver.add(Def::Assert(e));
    proof {
        assert(solver.trace().subrange(0, a.trace().len() as int) =~= a.trace());
    }
}

/// The primop that takes a boolean fact on trust: a symbolic condition is
/// asserted to the solver; a concrete false condition asserts the
/// unsatisfiable literal.
pub fn assume_prop(x: Val, solver: &mut Solver) -> (r: Result<Val, ExecError>)
    requires
        old(solver).wf(),
    ensures
        assume_prop_post(x@, r, *old(solver), *final(solver)),
{
    match x {
        Val::Symbolic(v) => {
            add_assert(solver, Exp::Var(v));
            Ok(Val::Unit)
        },
        Val::Bool(b) => {
            if b {
                Ok(Val::Unit)
            } else {
                add_assert(solver, Exp::Bool(false));
                Ok(Val::Unit)
            }
        },
        _ => Err(type_error("assume_prop")),
    }
}

/// Assert a condition optimistically: when the solver cannot refute it the
/// condition is assumed; when the solver proves it false the user message
/// is raised. A verdict the external solver does not give is an error.
pub fn optimistic_assert(x: Val, message: Val, solver: &mut Solver) -> (r: Result<
    Val,
    ExecError,
>)
    requires
        old(solver).wf(),
    ensures
        optimistic_assert_post(x@, message@, r, *old(solver), *final(solver)),
{
    let message = match message {
        Val::String(m) => m,
        _ => {
            return Err(type_error("optimistic_assert"));
        },
    };
    match x {
        Val::Symbolic(v) => {
            let test_true = Exp::Var(v);
            match solver.check_sat_with(&test_true) {
                SmtResult::Sat => {
                    add_assert(solver, Exp::Var(v));
                    Ok(Val::Unit)
                },
                SmtResult::Unsat => Err(ExecError::AssertionFailed(message)),
                SmtResult::Unknown => Err(ExecError::SolverUnknown),
            }
        },
        Val::Bool(b) => {
            if b {
                Ok(Val::Unit)
            } else {
                Err(ExecError::AssertionFailed(message))
            }
        },
        _ => Err(type_error("optimistic_assert")),
    }
}

/// Assert a condition pessimistically: when the solver cannot prove the
/// condition always holds, the user message is raised.
pub fn pessimistic_assert(x: Val, message: Val, solver: &mut Solver) -> (r: Result<
    Val,
    ExecError,
>)
    requires
        old(solver).wf(),
    ensures
        pessimistic_assert_post(x@, message@, r, *old(solver), *final(solver)),
{
    let message = match message {
        Val::String(m) => m,
        _ => {
            return Err(type_error("pessimistic_assert"));
        },
    };
    match x {
        Val::Symbolic(v) => {
            let test_false = Exp::Not(Box::new(Exp::Var(v)));
            match solver.check_sat_with(&test_false) {
                SmtResult::Sat => Err(ExecError::AssertionFailed(message)),
                SmtResult::Unsat => Ok(Val::Unit),
                SmtResult::Unknown => Err(ExecError::SolverUnknown),
            }
        },
        Val::Bool(b) => {
            if b {
                Ok(Val::Unit)
            } else {
                Err(ExecError::AssertionFailed(message))
            }
        },
        _ => Err(type_error("pessimistic_assert")),
    }
}

/// Widen a 64-bit machine integer to an integer.
pub fn i64_to_i128(x: Val, solver: &mut Solver) -> (r: Result<Val, ExecError>)
    requires
        old(solver).wf(),
        old(solver).next_sym() < u32::MAX,
    ensures
        i64_to_i128_post(x@, r, *old(solver), *final(solver)),
{
    match x {
        Val::I64(a) => Ok(Val::I128(a as i128)),
        Val::Symbolic(s) => Ok(
            define_result(solver, Exp::SignExtend(64, Box::new(Exp::Var(s)))),
        ),
        _ => Err(type_error("%i64->%i")),
    }
}

/// Narrow an integer to a 64-bit machine integer, overflowing when it does
/// not fit.
pub fn i128_to_i64(x: Val, solver: &mut Solver) -> (r: Result<Val, ExecError>)
    requires
        old(solver).wf(),
        old(solver).next_sym() < u32::MAX,
    ensures
        i128_to_i64_post(x@, r, *old(solver), *final(solver)),
{
    match x {
        Val::I128(a) => {
            if i64::MIN as i128 <= a && a <= i64::MAX as i128 {
                Ok(Val::I64(a as i64))
            } else {
                Err(ExecError::Overflow)
            }
        },
        Val::Symbolic(s) => Ok(define_result(solver, Exp::Extract(63, 0, Box::new(Exp::Var(s))))),
        _ => Err(type_error("%i->%i64")),
    }
}

/// Turn a single-bit bit vector into a boolean.
pub fn bit_to_bool(bit: Val, solver: &mut Solver) -> (r: Result<Val, ExecError>)
    requires
        old(solver).wf(),
        old(solver).next_sym() < u32::MAX,
    ensures
        bit_to_bool_post(bit@, r, *old(solver), *final(solver)),
{
    match bit {
        Val::Bits(b) => Ok(Val::Bool(b.len() == 1 && b.lower_u64() == 1)),
        Val::Symbolic(s) => {
            let mut one: Vec<bool> = Vec::new();
            one.push(true);
            proof {
                assert(one@ =~= seq![true]);
            }
            Ok(
                define_result(
                    solver,
                    Exp::Eq(Box::new(Exp::Bits(one)), Box::new(Exp::Var(s))),
                ),
            )
        },
        _ => Err(type_error("bit_to_bool")),
    }
}

/// The unsigned value of a bit vector as a 64-bit machine integer,
/// truncated when the width is 64.
pub fn op_unsigned(bits: Val, solver: &mut Solver) -> (r: Result<Val, ExecError>)
    requires
        old(solver).wf(),
        old(solver).next_sym() < u32::MAX,
        abs_wf(bits@),
    ensures
        op_unsigned_post(bits@, r, *old(solver), *final(solver)),
{
    match bits {
        Val::Bits(b) => Ok(Val::I64(b.lower_u64() as i64)),
        Val::Symbolic(s) => match solver.length(s) {
            Some(len) => {
                if len <= 64 {
                    Ok(define_result(solver, Exp::ZeroExtend(64 - len, Box::new(Exp::Var(s)))))
                } else {
                    Err(type_error("op_unsigned"))
                }
            },
            None => Err(type_error("op_unsigned")),
        },
        _ => Err(type_error("op_unsigned")),
    }
}

/// The signed value of a bit vector as a 64-bit machine integer.
pub fn op_signed(bits: Val, solver: &mut Solver) -> (r: Result<Val, ExecError>)
    requires
        old(solver).wf(),
        old(solver).next_sym() < u32::MAX,
        abs_wf(bits@),
    ensures
        op_signed_post(bits@, r, *old(solver), *final(solver)),
{
    match bits {
        Val::Bits(b) => {
            proof {
                lemma_signed_fits(b);
            }
            Ok(Val::I64(b.signed() as i64))
        },
        Val::Symbolic(s) => match solver.length(s) {
            Some(len) => {
                if len <= 64 {
                    Ok(define_result(solver, Exp::SignExtend(64 - len, Box::new(Exp::Var(s)))))
                } else {
                    Err(type_error("op_signed"))
                }
            },
            None => Err(type_error("op_signed")),
        },
        _ => Err(type_error("op_signed")),
    }
}

/// The signed value of a well-formed bit vector fits in 64 bits.
pub proof fn lemma_signed_fits(b: Sbits)
    requires
        b.wf(),
    ensures
        i64::MIN <= b.signed_value() <= i64::MAX,
        b.signed_value() as i64 == b.signed_value(),
{
    lemma2_to64();
    lemma2_to64_rest();
    if b.width() > 0 {
        if ((b.width() - 1) as nat) < 63 {
            lemma_pow2_strictly_increases((b.width() - 1) as nat, 63);
        }
        if ((b.width() as nat)) < 64 {
            lemma_pow2_strictly_increases(b.width() as nat, 64);
        }
    }
}


/// Concrete equality of two base values of the same kind; `None` when the
/// pair has no concrete equality.
pub open spec fn abs_base_eq(a: AbsVal, b: AbsVal) -> Option<bool> {
    match (a, b) {
        (AbsVal::Bits(x), AbsVal::Bits(y)) => Some(x == y),
        (AbsVal::Enum(x), AbsVal::Enum(y)) => Some(x == y),
        (AbsVal::Bool(x), AbsVal::Bool(y)) => Some(x == y),
        (AbsVal::I128(x), AbsVal::I128(y)) => Some(x == y),
        (AbsVal::I64(x), AbsVal::I64(y)) => Some(x == y),
        _ => None,
    }
}

/// The solver only accumulated state: the trace grew, the symbol counter
/// did not shrink, and the event log, cycle counter and answer queue are
/// untouched.
pub open spec fn solver_evolves(a: Solver, b: Solver) -> bool {
    &&& a.trace().is_prefix_of(b.trace())
    &&& b.next_sym() >= a.next_sym()
    &&& b.events() == a.events()
    &&& b.cycles() == a.cycles()
    &&& b.answers() == a.answers()
}

/// Equality of two values of any shape: concrete where both are concrete,
/// an SMT equality term where one side is symbolic, and for structs a
/// conjunction over the fields that are not concretely equal.
pub fn eq_anything(lhs: &Val, rhs: &Val, solver: &mut Solver) -> (r: Result<Val, ExecError>)
    requires
        old(solver).wf(),
        old(solver).next_sym() + 1 < u32::MAX,
    ensures
        eq_anything_post(lhs@, rhs@, r, *old(solver), *final(solver)),
    decreases *lhs, 1int,
{
    match (lhs, rhs) {
        (Val::Symbolic(x), Val::Symbolic(y)) => Ok(
            define_result(solver, Exp::Eq(Box::new(Exp::Var(*x)), Box::new(Exp::Var(*y)))),
        ),
        (l, Val::Symbolic(y)) => {
            let le = smt_value(l)?;
            Ok(define_result(solver, Exp::Eq(Box::new(le), Box::new(Exp::Var(*y)))))
        },
        (Val::Symbolic(x), r2) => {
            let re = smt_value(r2)?;
            Ok(define_result(solver, Exp::Eq(Box::new(Exp::Var(*x)), Box::new(re))))
        },
        (Val::Bits(x), Val::Bits(y)) => Ok(Val::Bool(x == y)),
        (Val::Enum(x), Val::Enum(y)) => Ok(Val::Bool(x == y)),
        (Val::Bool(x), Val::Bool(y)) => Ok(Val::Bool(x == y)),
        (Val::I128(x), Val::I128(y)) => Ok(Val::Bool(x == y)),
        (Val::I64(x), Val::I64(y)) => Ok(Val::Bool(x == y)),
        (Val::Struct(lf), Val::Struct(rf)) => eq_struct_fields(lhs, lf, rf, solver),
        _ => Err(type_error("eq_anything")),
    }
}

/// Field-by-field equality of two structs: any concretely unequal field
/// short-circuits to false; otherwise the pending symbolic equalities are
/// conjoined into one defined constant.
#[verifier::loop_isolation(false)]
fn eq_struct_fields(parent: &Val, lf: &Vec<(u32, Val)>, rf: &Vec<(u32, Val)>, solver: &mut Solver)
    -> (r: Result<Val, ExecError>)
    requires
        old(solver).wf(),
        old(solver).next_sym() + 1 < u32::MAX,
        *parent matches Val::Struct(f) && f == *lf,
    ensures
        final(solver).wf(),
        solver_evolves(*old(solver), *final(solver)),
        match eq_fields_class(
            crate::value::fields_view(lf@),
            crate::value::fields_view(rf@),
            0,
            false,
        ) {
            EqClass::True => r matches Ok(v) && v@ == AbsVal::Bool(true) && solver_unchanged(
                *old(solver),
                *final(solver),
            ),
            EqClass::False(sym_seen) => if sym_seen {
                match r {
                    Ok(v) => v@ == AbsVal::Bool(false),
                    Err(e) => e is Type,
                }
            } else {
                r matches Ok(v) && v@ == AbsVal::Bool(false) && solver_unchanged(
                    *old(solver),
                    *final(solver),
                )
            },
            EqClass::Sym => match r {
                Ok(v) => final(solver).trace().len() > old(solver).trace().len() && (
                v@ matches AbsVal::Symbolic(s) && final(solver).trace().last() matches
                    Def::DefineConst(s2, _) && s2 == s) && is_var_conj(last_exp(*final(solver))),
                Err(e) => e is Type,
            },
            EqClass::Bad => r matches Err(e) && e is Type,
        },
    decreases *parent, 0int,
{
    proof {
        crate::value::lemma_fields_view_len(lf@);
        assert forall|i: int| 0 <= i < lf@.len() implies #[trigger] crate::value::fields_view(
            lf@,
        )[i] == (lf@[i].0, val_view(lf@[i].1)) by {
            crate::value::lemma_fields_view_index(lf@, i);
        }
    }
    let ghost lfv = crate::value::fields_view(lf@);
    let ghost rfv = crate::value::fields_view(rf@);
    let mut vars: Vec<Sym> = Vec::new();
    let mut k: usize = 0;
    while k < lf.len()
        invariant
            solver.wf(),
            *parent matches Val::Struct(f) && f == *lf,
            k <= lf@.len(),
            solver_evolves(*old(solver), *solver),
            eq_fields_class(lfv, rfv, 0, false) == eq_fields_class(
                lfv,
                rfv,
                k as int,
                vars@.len() > 0,
            ),
            vars@.len() == 0 ==> solver_unchanged(*old(solver), *solver),
        decreases lf@.len() - k,
    {
        proof {
            if vars@.len() > 0 {
                lemma_class_sym_seen(lfv, rfv, k as int);
            }
        }
        if solver.remaining_symbols() < 2 {
            return Err(type_error("eq_anything"));
        }
        let name = lf[k].0;
        let rhs_v = match struct_field(rf, name) {
            Some(v) => v,
            None => {
                proof {
                    lemma_field_first_view(rf@, name);
                }
                return Err(type_error("eq_anything"));
            },
        };
        proof {
            lemma_field_first_view(rf@, name);
            assert(field_first(rfv, lfv[k as int].0) == Some(val_view(*rhs_v)));
            let p = *parent;
            assert(decreases_to!(p => p->Struct_0));
            assert(decreases_to!(p->Struct_0 => p->Struct_0@));
            assert(decreases_to!(p->Struct_0@ => p->Struct_0@[k as int]));
        }
        let ghost mid = *solver;
        let result = match eq_anything(&lf[k].1, rhs_v, solver) {
            Ok(v) => v,
            Err(e) => {
                proof {
                    lemma_class_sym_seen(lfv, rfv, k as int + 1);
                }
                return Err(e);
            },
        };
        proof {
            assert(eq_anything_post(lfv[k as int].1, val_view(*rhs_v), Ok::<Val, ExecError>(result), mid, *solver));
        }
        match result {
            Val::Bool(true) => {
                proof {
                    assert(eq_class(lfv[k as int].1, val_view(*rhs_v)) is True);
                }
            },
            Val::Bool(false) => {
                proof {
                    assert(eq_class(lfv[k as int].1, val_view(*rhs_v)) matches EqClass::False(_));
                }
                return Ok(Val::Bool(false));
            },
            Val::Symbolic(s) => {
                proof {
                    assert(eq_class(lfv[k as int].1, val_view(*rhs_v)) is Sym);
                }
                vars.push(s);
            },
            _ => {
                proof {
                    assert(false);
                }
                return Err(type_error("eq_anything"));
            },
        }
        k += 1;
    }
    if vars.len() == 0 {
        return Ok(Val::Bool(true));
    }
    // conjoin the pending symbolic equalities
    let mut exp = Exp::Var(vars[vars.len() - 1]);
    let mut j: usize = vars.len() - 1;
    while j > 0
        invariant
            j < vars@.len(),
            is_var_conj(exp),
        decreases j,
    {
        exp = Exp::And(Box::new(exp), Box::new(Exp::Var(vars[j - 1])));
        j -= 1;
    }
    if solver.remaining_symbols() < 1 {
        return Err(type_error("eq_anything"));
    }
    proof {
        lemma_class_sym_seen(lfv, rfv, lf@.len() as int);
    }
    Ok(define_result(solver, exp))
}

/// Disequality of two values; bit vectors, enumerations and their symbolic
/// mixes are supported.
pub fn neq_anything(lhs: &Val, rhs: &Val, solver: &mut Solver) -> (r: Result<Val, ExecError>)
    requires
        old(solver).wf(),
        old(solver).next_sym() < u32::MAX,
    ensures
        neq_anything_post(lhs@, rhs@, r, *old(solver), *final(solver)),
{
    match (lhs, rhs) {
        (Val::Symbolic(x), Val::Symbolic(y)) => Ok(
            define_result(solver, Exp::Neq(Box::new(Exp::Var(*x)), Box::new(Exp::Var(*y)))),
        ),
        (Val::Bits(x), Val::Symbolic(y)) => Ok(
            define_result(solver, Exp::Neq(Box::new(smt_sbits(*x)), Box::new(Exp::Var(*y)))),
        ),
        (Val::Symbolic(x), Val::Bits(y)) => Ok(
            define_result(solver, Exp::Neq(Box::new(Exp::Var(*x)), Box::new(smt_sbits(*y)))),
        ),
        (Val::Bits(x), Val::Bits(y)) => Ok(Val::Bool(!(x == y))),
        (Val::Symbolic(x), Val::Enum(y)) => Ok(
            define_result(solver, Exp::Neq(Box::new(Exp::Var(*x)), Box::new(Exp::Enum(*y)))),
        ),
        (Val::Enum(x), Val::Symbolic(y)) => Ok(
            define_result(solver, Exp::Neq(Box::new(Exp::Enum(*x)), Box::new(Exp::Var(*y)))),
        ),
        (Val::Enum(x), Val::Enum(y)) => Ok(Val::Bool(!(x == y))),
        _ => Err(type_error("neq_anything")),
    }
}

/// Equality with the legacy list rule: two lists are equal only when both
/// are empty; lists of unequal length are unequal; any other pair of
/// non-empty lists is a type error.
pub fn op_eq(x: Val, y: Val, solver: &mut Solver) -> (r: Result<Val, ExecError>)
    requires
        old(solver).wf(),
        old(solver).next_sym() + 1 < u32::MAX,
    ensures
        op_eq_post(x@, y@, r, *old(solver), *final(solver)),
{
    broadcast use crate::value::lemma_vals_view_len;

    match (&x, &y) {
        (Val::List(xs), Val::List(ys)) => {
            proof {
                crate::value::lemma_vals_view_len(xs@);
                crate::value::lemma_vals_view_len(ys@);
            }
            if xs.len() != ys.len() {
                Ok(Val::Bool(false))
            } else if xs.len() == 0 {
                Ok(Val::Bool(true))
            } else {
                Err(type_error("op_eq"))
            }
        },
        (l, r2) => eq_anything(l, r2, solver),
    }
}

/// Disequality with the legacy list rule, the mirror of [`op_eq`].
pub fn op_neq(x: Val, y: Val, solver: &mut Solver) -> (r: Result<Val, ExecError>)
    requires
        old(solver).wf(),
        old(solver).next_sym() < u32::MAX,
    ensures
        op_neq_post(x@, y@, r, *old(solver), *final(solver)),
{
    broadcast use crate::value::lemma_vals_view_len;

    match (&x, &y) {
        (Val::List(xs), Val::List(ys)) => {
            proof {
                crate::value::lemma_vals_view_len(xs@);
                crate::value::lemma_vals_view_len(ys@);
            }
            if xs.len() != ys.len() {
                Ok(Val::Bool(true))
            } else if xs.len() == 0 {
                Ok(Val::Bool(false))
            } else {
                Err(type_error("op_neq"))
            }
        },
        (l, r2) => neq_anything(l, r2, solver),
    }
}

/// The head of a list: its most recently consed element.
pub fn op_head(xs: Val, _solver: &mut Solver) -> (r: Result<Val, ExecError>)
    requires
        old(_solver).wf(),
    ensures
        op_head_post(xs@, r, *old(_solver), *final(_solver)),
{
    broadcast use crate::value::lemma_vals_view_len, crate::value::lemma_vals_view_index;

    match xs {
        Val::List(mut items) => match items.pop() {
            Some(v) => Ok(v),
            None => Err(type_error("op_head")),
        },
        _ => Err(type_error("op_head")),
    }
}

/// The tail of a list: the list without its head; the empty list is its
/// own tail.
pub fn op_tail(xs: Val, _solver: &mut Solver) -> (r: Result<Val, ExecError>)
    requires
        old(_solver).wf(),
    ensures
        op_tail_post(xs@, r, *old(_solver), *final(_solver)),
{
    match xs {
        Val::List(mut items) => {
            let ghost s0 = items@;
            let popped = items.pop();
            proof {
                broadcast use crate::value::lemma_vals_view_len, crate::value::lemma_vals_view_index;

                if s0.len() > 0 {
                    assert(items@ =~= s0.subrange(0, s0.len() - 1));
                    assert(vals_view(s0) == vals_view(items@).push(val_view(s0[s0.len() - 1])));
                    assert(vals_view(items@) =~= vals_view(s0).drop_last());
                } else {
                    assert(items@ =~= s0);
                }
            }
            Ok(Val::List(items))
        },
        _ => Err(type_error("op_tail")),
    }
}


/// The absolute value of an integer, wrapping on the minimum value.
pub fn abs_int(x: Val, solver: &mut Solver) -> (r: Result<Val, ExecError>)
    requires
        old(solver).wf(),
        old(solver).next_sym() < u32::MAX,
    ensures
        abs_int_post(x@, r, *old(solver), *final(solver)),
{
    match x {
        Val::I128(a) => {
            if a == i128::MIN {
                Ok(Val::I128(i128::MIN))
            } else if a < 0 {
                Ok(Val::I128(-a))
            } else {
                Ok(Val::I128(a))
            }
        },
        Val::Symbolic(s) => Ok(
            define_result(
                solver,
                Exp::Ite(
                    Box::new(Exp::Bvslt(Box::new(Exp::Var(s)), Box::new(smt_i128(0)))),
                    Box::new(Exp::Bvneg(Box::new(Exp::Var(s)))),
                    Box::new(Exp::Var(s)),
                ),
            ),
        ),
        _ => Err(type_error("abs_int")),
    }
}

/// Wrapping addition of integers; adding a concrete zero to a symbolic
/// integer returns the symbol unchanged, without consulting the solver.
pub fn add_int(x: Val, y: Val, solver: &mut Solver) -> (r: Result<Val, ExecError>)
    requires
        old(solver).wf(),
        old(solver).next_sym() < u32::MAX,
    ensures
        add_int_post(x@, y@, r, *old(solver), *final(solver)),
{
    match (x, y) {
        (Val::Symbolic(a), Val::Symbolic(b)) => Ok(
            define_result(solver, Exp::Bvadd(Box::new(Exp::Var(a)), Box::new(Exp::Var(b)))),
        ),
        (Val::Symbolic(a), Val::I128(b)) => {
            if b != 0 {
                Ok(define_result(solver, Exp::Bvadd(Box::new(Exp::Var(a)), Box::new(smt_i128(b)))))
            } else {
                Ok(Val::Symbolic(a))
            }
        },
        (Val::I128(a), Val::Symbolic(b)) => {
            if a != 0 {
                Ok(define_result(solver, Exp::Bvadd(Box::new(smt_i128(a)), Box::new(Exp::Var(b)))))
            } else {
                Ok(Val::Symbolic(b))
            }
        },
        (Val::I128(a), Val::I128(b)) => Ok(Val::I128(a.wrapping_add(b))),
        _ => Err(type_error("add_int")),
    }
}

/// The defined term selects the greater (or lesser) of the two operands by
/// an if-then-else over a signed comparison.
pub open spec fn is_compare_ite(e: Exp, gt: bool, a: AbsVal, b: AbsVal) -> bool {
    e matches Exp::Ite(c, t, e2) && (if gt {
        *c matches Exp::Bvsgt(ca, cb) && is_smt_value(a, *ca) && is_smt_value(b, *cb)
    } else {
        *c matches Exp::Bvslt(ca, cb) && is_smt_value(a, *ca) && is_smt_value(b, *cb)
    }) && is_smt_value(a, *t) && is_smt_value(b, *e2)
}

/// The greater of two integers.
pub fn max_int(x: Val, y: Val, solver: &mut Solver) -> (r: Result<Val, ExecError>)
    requires
        old(solver).wf(),
        old(solver).next_sym() < u32::MAX,
    ensures
        max_int_post(x@, y@, r, *old(solver), *final(solver)),
{
    match (x, y) {
        (Val::I128(a), Val::I128(b)) => Ok(Val::I128(if a >= b { a } else { b })),
        (Val::I128(a), Val::Symbolic(b)) => Ok(
            define_result(
                solver,
                Exp::Ite(
                    Box::new(Exp::Bvsgt(Box::new(smt_i128(a)), Box::new(Exp::Var(b)))),
                    Box::new(smt_i128(a)),
                    Box::new(Exp::Var(b)),
                ),
            ),
        ),
        (Val::Symbolic(a), Val::I128(b)) => Ok(
            define_result(
                solver,
                Exp::Ite(
                    Box::new(Exp::Bvsgt(Box::new(Exp::Var(a)), Box::new(smt_i128(b)))),
                    Box::new(Exp::Var(a)),
                    Box::new(smt_i128(b)),
                ),
            ),
        ),
        (Val::Symbolic(a), Val::Symbolic(b)) => Ok(
            define_result(
                solver,
                Exp::Ite(
                    Box::new(Exp::Bvsgt(Box::new(Exp::Var(a)), Box::new(Exp::Var(b)))),
                    Box::new(Exp::Var(a)),
                    Box::new(Exp::Var(b)),
                ),
            ),
        ),
        _ => Err(type_error("max_int")),
    }
}

/// The lesser of two integers.
pub fn min_int(x: Val, y: Val, solver: &mut Solver) -> (r: Result<Val, ExecError>)
    requires
        old(solver).wf(),
        old(solver).next_sym() < u32::MAX,
    ensures
        min_int_post(x@, y@, r, *old(solver), *final(solver)),
{
    match (x, y) {
        (Val::I128(a), Val::I128(b)) => Ok(Val::I128(if a <= b { a } else { b })),
        (Val::I128(a), Val::Symbolic(b)) => Ok(
            define_result(
                solver,
                Exp::Ite(
                    Box::new(Exp::Bvslt(Box::new(smt_i128(a)), Box::new(Exp::Var(b)))),
                    Box::new(smt_i128(a)),
                    Box::new(Exp::Var(b)),
                ),
            ),
        ),
        (Val::Symbolic(a), Val::I128(b)) => Ok(
            define_result(
                solver,
                Exp::Ite(
                    Box::new(Exp::Bvslt(Box::new(Exp::Var(a)), Box::new(smt_i128(b)))),
                    Box::new(Exp::Var(a)),
                    Box::new(smt_i128(b)),
                ),
            ),
        ),
        (Val::Symbolic(a), Val::Symbolic(b)) => Ok(
            define_result(
                solver,
                Exp::Ite(
                    Box::new(Exp::Bvslt(Box::new(Exp::Var(a)), Box::new(Exp::Var(b)))),
                    Box::new(Exp::Var(a)),
                    Box::new(Exp::Var(b)),
                ),
            ),
        ),
        _ => Err(type_error("min_int")),
    }
}

/// Natural subtraction: the difference, or zero when the subtrahend is the
/// larger; the concrete path wraps like the other integer arithmetic.
pub fn sub_nat(x: Val, y: Val, solver: &mut Solver) -> (r: Result<Val, ExecError>)
    requires
        old(solver).wf(),
        old(solver).next_sym() < u32::MAX,
    ensures
        sub_nat_post(x@, y@, r, *old(solver), *final(solver)),
{
    match (x, y) {
        (Val::I128(a), Val::I128(b)) => {
            let d = a.wrapping_sub(b);
            Ok(Val::I128(if d >= 0 { d } else { 0 }))
        },
        (Val::I128(a), Val::Symbolic(b)) => Ok(
            sub_nat_symbolic(solver, smt_i128(a), Exp::Var(b), smt_i128(a), Exp::Var(b)),
        ),
        (Val::Symbolic(a), Val::I128(b)) => Ok(
            sub_nat_symbolic(solver, Exp::Var(a), smt_i128(b), Exp::Var(a), smt_i128(b)),
        ),
        (Val::Symbolic(a), Val::Symbolic(b)) => Ok(
            sub_nat_symbolic(solver, Exp::Var(a), Exp::Var(b), Exp::Var(a), Exp::Var(b)),
        ),
        _ => Err(type_error("sub_nat")),
    }
}

/// Build the natural-subtraction selector term from two copies of the
/// operand literals.
fn sub_nat_symbolic(solver: &mut Solver, a1: Exp, b1: Exp, a2: Exp, b2: Exp) -> (r: Val)
    requires
        old(solver).wf(),
        old(solver).next_sym() < u32::MAX,
    ensures
        final(solver).wf(),
        defines_fresh(*old(solver), *final(solver), r),
        last_exp(*final(solver)) matches Exp::Ite(c, t, e) && (*c matches Exp::Bvsgt(d1, z1) && (
        *d1 matches Exp::Bvsub(da, db) && *da == a1 && *db == b1) && is_i128_lit(*z1, 0)) && (*t
            matches Exp::Bvsub(ta, tb) && *ta == a2 && *tb == b2) && is_i128_lit(*e, 0),
{
    define_result(
        solver,
        Exp::Ite(
            Box::new(
                Exp::Bvsgt(
                    Box::new(Exp::Bvsub(Box::new(a1), Box::new(b1))),
                    Box::new(smt_i128(0)),
                ),
            ),
            Box::new(Exp::Bvsub(Box::new(a2), Box::new(b2))),
            Box::new(smt_i128(0)),
        ),
    )
}

/// Two to a given power: a left shift of one, with the shift amount taken
/// modulo 128 on the concrete path.
pub fn pow2(x: Val, solver: &mut Solver) -> (r: Result<Val, ExecError>)
    requires
        old(solver).wf(),
        old(solver).next_sym() < u32::MAX,
    ensures
        pow2_post(x@, r, *old(solver), *final(solver)),
{
    match x {
        Val::I128(a) => Ok(Val::I128(1i128.wrapping_shl(a as u32))),
        Val::Symbolic(s) => Ok(
            define_result(solver, Exp::Bvshl(Box::new(smt_i128(1)), Box::new(Exp::Var(s)))),
        ),
        _ => Err(type_error("pow2")),
    }
}

/// A base of magnitude at most one keeps every power within magnitude one.
proof fn lemma_pow_small_base(a: int, i: nat)
    requires
        -1 <= a <= 1,
    ensures
        -1 <= vstd::arithmetic::power::pow(a, i) <= 1,
    decreases i,
{
    reveal(vstd::arithmetic::power::pow);
    if i == 0 {
        vstd::arithmetic::power::lemma_pow0(a);
    } else {
        lemma_pow_small_base(a, (i - 1) as nat);
        let p = vstd::arithmetic::power::pow(a, (i - 1) as nat);
        assert(vstd::arithmetic::power::pow(a, i) == a * p);
        assert(-1 <= a * p <= 1) by (nonlinear_arith)
            requires
                -1 <= a <= 1,
                -1 <= p <= 1,
        ;
    }
}

/// A base of magnitude at least two keeps every positive power at
/// magnitude at least two.
proof fn lemma_pow_big_base(a: int, k: nat)
    requires
        a <= -2 || a >= 2,
        k >= 1,
    ensures
        vstd::arithmetic::power::pow(a, k) <= -2 || vstd::arithmetic::power::pow(a, k) >= 2,
    decreases k,
{
    reveal(vstd::arithmetic::power::pow);
    if k == 1 {
        vstd::arithmetic::power::lemma_pow1(a);
    } else {
        lemma_pow_big_base(a, (k - 1) as nat);
        let p = vstd::arithmetic::power::pow(a, (k - 1) as nat);
        assert(vstd::arithmetic::power::pow(a, k) == a * p);
        assert(a * p <= -4 || a * p >= 4) by (nonlinear_arith)
            requires
                a <= -2 || a >= 2,
                p <= -2 || p >= 2,
        ;
    }
}

/// Integer exponentiation; only concrete operands are supported, and a
/// negative, oversized or overflowing power is an overflow error.
#[verifier::loop_isolation(false)]
pub fn pow_int(x: Val, y: Val, _solver: &mut Solver) -> (r: Result<Val, ExecError>)
    requires
        old(_solver).wf(),
    ensures
        pow_int_post(x@, y@, r, *old(_solver), *final(_solver)),
{
    match (x, y) {
        (Val::I128(a), Val::I128(b)) => {
            if b < 0 || b > u32::MAX as i128 {
                return Err(ExecError::Overflow);
            }
            let e = b as u32;
            let mut acc: i128 = 1;
            let mut i: u32 = 0;
            proof {
                vstd::arithmetic::power::lemma_pow0(a as int);
            }
            while i < e
                invariant
                    i <= e,
                    acc == vstd::arithmetic::power::pow(a as int, i as nat),
                    final(_solver).wf(),
                    solver_unchanged(*old(_solver), *final(_solver)),
                decreases e - i,
            {
                proof {
                    vstd::arithmetic::power::lemma_pow_adds(a as int, i as nat, 1);
                    assert(vstd::arithmetic::power::pow(a as int, 1) == a) by {
                        vstd::arithmetic::power::lemma_pow1(a as int);
                    }
                }
                acc = match acc.checked_mul(a) {
                    Some(m) => m,
                    None => {
                        proof {
                            lemma_pow_overflow(a as int, i as nat, e as nat, acc as int);
                        }
                        return Err(ExecError::Overflow);
                    },
                };
                i += 1;
            }
            proof {
                assert(acc == vstd::arithmetic::power::pow(a as int, b as nat));
            }
            Ok(Val::I128(acc))
        },
        _ => Err(type_error("pow_int")),
    }
}

/// When one more multiplication overflows, the final power is out of range
/// too.
proof fn lemma_pow_overflow(a: int, i: nat, e: nat, acc: int)
    requires
        i < e,
        acc == vstd::arithmetic::power::pow(a, i),
        !(i128::MIN <= acc * a <= i128::MAX),
    ensures
        !(i128::MIN <= vstd::arithmetic::power::pow(a, e) <= i128::MAX),
{
    vstd::arithmetic::power::lemma_pow_adds(a, i, 1);
    vstd::arithmetic::power::lemma_pow1(a);
    let step = vstd::arithmetic::power::pow(a, (i + 1) as nat);
    assert(step == acc * a) by (nonlinear_arith)
        requires
            step == acc * vstd::arithmetic::power::pow(a, 1),
            vstd::arithmetic::power::pow(a, 1) == a,
    ;
    // a small base cannot overflow, so the base has magnitude at least two
    if -1 <= a <= 1 {
        lemma_pow_small_base(a, i);
        assert(i128::MIN <= acc * a <= i128::MAX) by (nonlinear_arith)
            requires
                -1 <= a <= 1,
                -1 <= acc <= 1,
        ;
    }
    let k = (e - i - 1) as nat;
    let rest = vstd::arithmetic::power::pow(a, k);
    vstd::arithmetic::power::lemma_pow_adds(a, (i + 1) as nat, k);
    if k == 0 {
        vstd::arithmetic::power::lemma_pow0(a);
        assert(vstd::arithmetic::power::pow(a, e) == step) by (nonlinear_arith)
            requires
                vstd::arithmetic::power::pow(a, e) == step * rest,
                rest == 1,
        ;
    } else {
        lemma_pow_big_base(a, k);
        assert(!(i128::MIN <= step * rest <= i128::MAX)) by (nonlinear_arith)
            requires
                rest <= -2 || rest >= 2,
                !(i128::MIN <= step <= i128::MAX),
        ;
    }
}
/// The contract of [`assume_prop`], as one predicate over the views of its
/// operands and the solver before and after.
pub open spec fn assume_prop_post(x: AbsVal, r: Result<Val, ExecError>, pre: Solver, post: Solver) -> bool {
        &&& ({
        post.wf()
        })
        &&& ({
        match x {
            AbsVal::Symbolic(v) => r matches Ok(u) && u is Unit && appends_assert(
                pre,
                post,
            ) && last_assert(post) == Exp::Var(v),
            AbsVal::Bool(b) => r matches Ok(u) && u is Unit && if b {
                solver_unchanged(pre, post)
            } else {
                appends_assert(pre, post) && last_assert(post)
                    == Exp::Bool(false)
            },
            _ => r matches Err(e) && e is Type && solver_unchanged(pre, post),
        }
        })
}

/// The contract of [`optimistic_assert`], as one predicate over the views of its
/// operands and the solver before and after.
pub open spec fn optimistic_assert_post(x: AbsVal, message: AbsVal, r: Result<Val, ExecError>, pre: Solver, post: Solver) -> bool {
        &&& ({
        post.wf()
        })
        &&& ({
        !(message is String) ==> (r matches Err(e) && e is Type && solver_unchanged(
            pre,
            post,
        ))
        })
        &&& ({
        message matches AbsVal::String(msg) ==> match x {
            AbsVal::Bool(b) => if b {
                r matches Ok(u) && u is Unit && solver_unchanged(pre, post)
            } else {
                (r matches Err(e) && e matches ExecError::AssertionFailed(m) && m@ == msg)
                    && solver_unchanged(pre, post)
            },
            AbsVal::Symbolic(v) => match head_answer(pre) {
                SmtResult::Sat => {
                    &&& r matches Ok(u) && u is Unit
                    &&& post.trace().len() == pre.trace().len() + 1
                    &&& post.trace().subrange(0, pre.trace().len() as int)
                        == pre.trace()
                    &&& last_assert(post) == Exp::Var(v)
                    &&& post.trace().last() is Assert
                },
                SmtResult::Unsat => (r matches Err(e) && e matches ExecError::AssertionFailed(m)
                    && m@ == msg) && post.trace() == pre.trace(),
                SmtResult::Unknown => r matches Err(e) && e is SolverUnknown
                    && post.trace() == pre.trace(),
            },
            _ => r matches Err(e) && e is Type && solver_unchanged(pre, post),
        }
        })
}

/// The contract of [`pessimistic_assert`], as one predicate over the views of its
/// operands and the solver before and after.
pub open spec fn pessimistic_assert_post(x: AbsVal, message: AbsVal, r: Result<Val, ExecError>, pre: Solver, post: Solver) -> bool {
        &&& ({
        post.wf()
        })
        &&& ({
        !(message is String) ==> (r matches Err(e) && e is Type && solver_unchanged(
            pre,
            post,
        ))
        })
        &&& ({
        message matches AbsVal::String(msg) ==> match x {
            AbsVal::Bool(b) => if b {
                r matches Ok(u) && u is Unit && solver_unchanged(pre, post)
            } else {
                (r matches Err(e) && e matches ExecError::AssertionFailed(m) && m@ == msg)
                    && solver_unchanged(pre, post)
            },
            AbsVal::Symbolic(v) => {
                &&& post.trace() == pre.trace()
                &&& pops_answer(pre, post)
                &&& match head_answer(pre) {
                    SmtResult::Sat => r matches Err(e) && e matches ExecError::AssertionFailed(m)
                        && m@ == msg,
                    SmtResult::Unsat => r matches Ok(u) && u is Unit,
                    SmtResult::Unknown => r matches Err(e) && e is SolverUnknown,
                }
            },
            _ => r matches Err(e) && e is Type && solver_unchanged(pre, post),
        }
        })
}

/// The contract of [`i64_to_i128`], as one predicate over the views of its
/// operands and the solver before and after.
pub open spec fn i64_to_i128_post(x: AbsVal, r: Result<Val, ExecError>, pre: Solver, post: Solver) -> bool {
        &&& ({
        post.wf()
        })
        &&& ({
        match x {
            AbsVal::I64(a) => r matches Ok(v) && v@ == AbsVal::I128(a as i128)
                && solver_unchanged(pre, post),
            AbsVal::Symbolic(s) => r matches Ok(v) && defines_fresh(
                pre,
                post,
                v,
            ) && last_exp(post) == Exp::SignExtend(64, Box::new(Exp::Var(s))),
            _ => r matches Err(e) && e is Type && solver_unchanged(pre, post),
        }
        })
}

/// The contract of [`i128_to_i64`], as one predicate over the views of its
/// operands and the solver before and after.
pub open spec fn i128_to_i64_post(x: AbsVal, r: Result<Val, ExecError>, pre: Solver, post: Solver) -> bool {
        &&& ({
        post.wf()
        })
        &&& ({
        match x {
            AbsVal::I128(a) => if i64::MIN <= a <= i64::MAX {
                r matches Ok(v) && v@ == AbsVal::I64(a as i64) && solver_unchanged(
                    pre,
                    post,
                )
            } else {
                r matches Err(e) && e is Overflow && solver_unchanged(
                    pre,
                    post,
                )
            },
            AbsVal::Symbolic(s) => r matches Ok(v) && defines_fresh(
                pre,
                post,
                v,
            ) && last_exp(post) == Exp::Extract(63, 0, Box::new(Exp::Var(s))),
            _ => r matches Err(e) && e is Type && solver_unchanged(pre, post),
        }
        })
}

/// The contract of [`bit_to_bool`], as one predicate over the views of its
/// operands and the solver before and after.
pub open spec fn bit_to_bool_post(bit: AbsVal, r: Result<Val, ExecError>, pre: Solver, post: Solver) -> bool {
        &&& ({
        post.wf()
        })
        &&& ({
        match bit {
            AbsVal::Bits(b) => r matches Ok(v) && v@ == AbsVal::Bool(
                b.width() == 1 && b.value() == 1,
            ) && solver_unchanged(pre, post),
            AbsVal::Symbolic(s) => r matches Ok(v) && defines_fresh(
                pre,
                post,
                v,
            ) && (last_exp(post) matches Exp::Eq(one, var) && (*one
                matches Exp::Bits(bs) && bs@ == seq![true]) && *var == Exp::Var(s)),
            _ => r matches Err(e) && e is Type && solver_unchanged(pre, post),
        }
        })
}

/// The contract of [`op_unsigned`], as one predicate over the views of its
/// operands and the solver before and after.
pub open spec fn op_unsigned_post(bits: AbsVal, r: Result<Val, ExecError>, pre: Solver, post: Solver) -> bool {
        &&& ({
        post.wf()
        })
        &&& ({
        match bits {
            AbsVal::Bits(b) => r matches Ok(v) && v@ == AbsVal::I64(b.value() as i64)
                && solver_unchanged(pre, post),
            AbsVal::Symbolic(s) => match pre.spec_length(s) {
                Some(len) => if len <= 64 {
                    r matches Ok(v) && defines_fresh(pre, post, v) && last_exp(
                        post,
                    ) == Exp::ZeroExtend((64 - len) as u32, Box::new(Exp::Var(s)))
                } else {
                    r matches Err(e) && e is Type && solver_unchanged(
                        pre,
                        post,
                    )
                },
                None => r matches Err(e) && e is Type && solver_unchanged(
                    pre,
                    post,
                ),
            },
            _ => r matches Err(e) && e is Type && solver_unchanged(pre, post),
        }
        })
}

/// The contract of [`op_signed`], as one predicate over the views of its
/// operands and the solver before and after.
pub open spec fn op_signed_post(bits: AbsVal, r: Result<Val, ExecError>, pre: Solver, post: Solver) -> bool {
        &&& ({
        post.wf()
        })
        &&& ({
        match bits {
            AbsVal::Bits(b) => r matches Ok(v) && v@ == AbsVal::I64(b.signed_value() as i64)
                && solver_unchanged(pre, post),
            AbsVal::Symbolic(s) => match pre.spec_length(s) {
                Some(len) => if len <= 64 {
                    r matches Ok(v) && defines_fresh(pre, post, v) && last_exp(
                        post,
                    ) == Exp::SignExtend((64 - len) as u32, Box::new(Exp::Var(s)))
                } else {
                    r matches Err(e) && e is Type && solver_unchanged(
                        pre,
                        post,
                    )
                },
                None => r matches Err(e) && e is Type && solver_unchanged(
                    pre,
                    post,
                ),
            },
            _ => r matches Err(e) && e is Type && solver_unchanged(pre, post),
        }
        })
}


/// How one equality comparison comes out: a concrete verdict, one fresh
/// symbolic equality, or a shape the comparison refuses.
pub enum EqClass {
    /// Concretely equal.
    True,
    /// Concretely unequal; the payload records whether a symbolic field
    /// equality was collected first.
    False(bool),
    /// Decided by the solver: one fresh definition.
    Sym,
    /// An unsupported pair of shapes.
    Bad,
}

/// The outcome of comparing two values for equality, by their shapes: a
/// symbolic side against a base value is one solver definition; equal
/// concrete base values are a verdict; structs compare field by field,
/// stopping at the first concretely-unequal field.
pub open spec fn eq_class(l: AbsVal, r: AbsVal) -> EqClass
    decreases l, 1int,
    via eq_class_decreases
{
    match (l, r) {
        (AbsVal::Symbolic(_), _) => if r is Symbolic || is_smt_base(r) {
            EqClass::Sym
        } else {
            EqClass::Bad
        },
        (_, AbsVal::Symbolic(_)) => if is_smt_base(l) {
            EqClass::Sym
        } else {
            EqClass::Bad
        },
        (AbsVal::Bits(a), AbsVal::Bits(b)) => if a == b {
            EqClass::True
        } else {
            EqClass::False(false)
        },
        (AbsVal::Enum(a), AbsVal::Enum(b)) => if a == b {
            EqClass::True
        } else {
            EqClass::False(false)
        },
        (AbsVal::Bool(a), AbsVal::Bool(b)) => if a == b {
            EqClass::True
        } else {
            EqClass::False(false)
        },
        (AbsVal::I128(a), AbsVal::I128(b)) => if a == b {
            EqClass::True
        } else {
            EqClass::False(false)
        },
        (AbsVal::I64(a), AbsVal::I64(b)) => if a == b {
            EqClass::True
        } else {
            EqClass::False(false)
        },
        (AbsVal::Struct(lf), AbsVal::Struct(rf)) => eq_fields_class(lf, rf, 0, false),
        _ => EqClass::Bad,
    }
}

/// The outcome of comparing struct fields from an index on, in order: the
/// first missing or unsupported field refuses, the first concretely-unequal
/// field decides false, symbolic fields are collected.
pub open spec fn eq_fields_class(
    lf: Seq<(u32, AbsVal)>,
    rf: Seq<(u32, AbsVal)>,
    k: int,
    sym_seen: bool,
) -> EqClass
    decreases lf, lf.len() - k, 0int,
    via eq_fields_class_decreases
{
    if k < 0 || k >= lf.len() {
        if sym_seen {
            EqClass::Sym
        } else {
            EqClass::True
        }
    } else {
        match field_first(rf, lf[k].0) {
            None => EqClass::Bad,
            Some(rv) => match eq_class(lf[k].1, rv) {
                EqClass::Bad => EqClass::Bad,
                EqClass::False(fb) => EqClass::False(sym_seen || fb),
                EqClass::True => eq_fields_class(lf, rf, k + 1, sym_seen),
                EqClass::Sym => eq_fields_class(lf, rf, k + 1, true),
            },
        }
    }
}

#[via_fn]
proof fn eq_class_decreases(l: AbsVal, r: AbsVal) {
    match l {
        AbsVal::Struct(lf) => {
            assert(decreases_to!(l => l->Struct_0));
        },
        _ => {},
    }
}

#[via_fn]
proof fn eq_fields_class_decreases(
    lf: Seq<(u32, AbsVal)>,
    rf: Seq<(u32, AbsVal)>,
    k: int,
    sym_seen: bool,
) {
    if 0 <= k < lf.len() {
        assert(decreases_to!(lf => lf[k]));
        assert(decreases_to!(lf[k] => lf[k].1));
    }
}


/// Once a symbolic field equality was collected, the fold yields a
/// definition, an unclean verdict or a refusal.
proof fn lemma_class_sym_seen(lf: Seq<(u32, AbsVal)>, rf: Seq<(u32, AbsVal)>, k: int)
    ensures
        match eq_fields_class(lf, rf, k, true) {
            EqClass::Sym => true,
            EqClass::False(b) => b,
            EqClass::Bad => true,
            EqClass::True => false,
        },
    decreases lf.len() - k,
{
    if 0 <= k < lf.len() {
        match field_first(rf, lf[k].0) {
            None => {},
            Some(rv) => match eq_class(lf[k].1, rv) {
                EqClass::True => lemma_class_sym_seen(lf, rf, k + 1),
                EqClass::Sym => lemma_class_sym_seen(lf, rf, k + 1),
                _ => {},
            },
        }
    }
}

/// Whether a term is a conjunction of variables: a variable, or such a
/// conjunction with one more variable.
pub open spec fn is_var_conj(e: Exp) -> bool
    decreases e,
{
    match e {
        Exp::Var(_) => true,
        Exp::And(a, b) => is_var_conj(*a) && *b is Var,
        _ => false,
    }
}

/// The contract of [`eq_anything`], as one predicate over the views of its
/// operands and the solver before and after.
pub open spec fn eq_anything_post(lhs: AbsVal, rhs: AbsVal, r: Result<Val, ExecError>, pre: Solver, post: Solver) -> bool {
        &&& ({
        post.wf()
        })
        &&& ({
        solver_evolves(pre, post)
        })
        &&& ({
        (lhs is Symbolic && rhs is Symbolic) ==> (r matches Ok(v) && defines_fresh(
            pre,
            post,
            v,
        ) && (last_exp(post) matches Exp::Eq(ea, eb) && is_smt_value(lhs, *ea)
            && is_smt_value(rhs, *eb)))
        })
        &&& ({
        (!(lhs is Symbolic) && rhs is Symbolic) ==> if is_smt_base(lhs) {
            r matches Ok(v) && defines_fresh(pre, post, v) && (last_exp(
                post,
            ) matches Exp::Eq(ea, eb) && is_smt_value(lhs, *ea) && is_smt_value(rhs, *eb))
        } else {
            r matches Err(e) && e is Type && solver_unchanged(pre, post)
        }
        })
        &&& ({
        (lhs is Symbolic && !(rhs is Symbolic)) ==> if is_smt_base(rhs) {
            r matches Ok(v) && defines_fresh(pre, post, v) && (last_exp(
                post,
            ) matches Exp::Eq(ea, eb) && is_smt_value(lhs, *ea) && is_smt_value(rhs, *eb))
        } else {
            r matches Err(e) && e is Type && solver_unchanged(pre, post)
        }
        })
        &&& ({
        (!(lhs is Symbolic) && !(rhs is Symbolic)) ==> match abs_base_eq(lhs, rhs) {
            Some(b) => r matches Ok(v) && v@ == AbsVal::Bool(b) && solver_unchanged(
                pre,
                post,
            ),
            None => if lhs is Struct && rhs is Struct {
                match eq_class(lhs, rhs) {
                    EqClass::True => r matches Ok(v) && v@ == AbsVal::Bool(true)
                        && solver_unchanged(pre, post),
                    EqClass::False(sym_seen) => if sym_seen {
                        match r {
                            Ok(v) => v@ == AbsVal::Bool(false),
                            Err(e) => e is Type,
                        }
                    } else {
                        r matches Ok(v) && v@ == AbsVal::Bool(false) && solver_unchanged(
                            pre,
                            post,
                        )
                    },
                    EqClass::Sym => match r {
                        Ok(v) => post.trace().len() > pre.trace().len() && (
                        v@ matches AbsVal::Symbolic(s) && post.trace().last() matches
                            Def::DefineConst(s2, _) && s2 == s) && is_var_conj(last_exp(post)),
                        Err(e) => e is Type,
                    },
                    EqClass::Bad => r matches Err(e) && e is Type,
                }
            } else {
                r matches Err(e) && e is Type && solver_unchanged(pre, post)
            },
        }
        })
}

/// The contract of [`neq_anything`], as one predicate over the views of its
/// operands and the solver before and after.
pub open spec fn neq_anything_post(lhs: AbsVal, rhs: AbsVal, r: Result<Val, ExecError>, pre: Solver, post: Solver) -> bool {
        &&& ({
        post.wf()
        })
        &&& ({
        solver_evolves(pre, post)
        })
        &&& ({
        (lhs is Symbolic && rhs is Symbolic) || (lhs is Bits && rhs is Symbolic) || (lhs
            is Symbolic && rhs is Bits) || (lhs is Enum && rhs is Symbolic) || (lhs
            is Symbolic && rhs is Enum) ==> (r matches Ok(v) && defines_fresh(
            pre,
            post,
            v,
        ) && (last_exp(post) matches Exp::Neq(ea, eb) && is_smt_value(lhs, *ea)
            && is_smt_value(rhs, *eb)))
        })
        &&& ({
        lhs matches AbsVal::Bits(x) ==> (rhs matches AbsVal::Bits(y) ==> (r matches Ok(v) && v@
            == AbsVal::Bool(x != y) && solver_unchanged(pre, post)))
        })
        &&& ({
        lhs matches AbsVal::Enum(x) ==> (rhs matches AbsVal::Enum(y) ==> (r matches Ok(v) && v@
            == AbsVal::Bool(x != y) && solver_unchanged(pre, post)))
        })
}

/// The contract of [`op_eq`], as one predicate over the views of its
/// operands and the solver before and after.
pub open spec fn op_eq_post(x: AbsVal, y: AbsVal, r: Result<Val, ExecError>, pre: Solver, post: Solver) -> bool {
        &&& ({
        post.wf()
        })
        &&& ({
        solver_evolves(pre, post)
        })
        &&& ({
        x matches AbsVal::List(xs) ==> (y matches AbsVal::List(ys) ==> if xs.len() != ys.len() {
            r matches Ok(v) && v@ == AbsVal::Bool(false) && solver_unchanged(
                pre,
                post,
            )
        } else if xs.len() == 0 {
            r matches Ok(v) && v@ == AbsVal::Bool(true) && solver_unchanged(
                pre,
                post,
            )
        } else {
            r matches Err(e) && e is Type && solver_unchanged(pre, post)
        })
        })
        &&& ({
        (!(x is List) && !(y is List) && !(x is Symbolic) && !(y is Symbolic)) ==> match
            abs_base_eq(x, y) {
            Some(b) => r matches Ok(v) && v@ == AbsVal::Bool(b) && solver_unchanged(
                pre,
                post,
            ),
            None => !(x is Struct && y is Struct) ==> (r matches Err(e) && e is Type
                && solver_unchanged(pre, post)),
        }
        })
        &&& ({
        (x is Symbolic && y is Symbolic) ==> (r matches Ok(v) && defines_fresh(
            pre,
            post,
            v,
        ) && (last_exp(post) matches Exp::Eq(ea, eb) && is_smt_value(x, *ea)
            && is_smt_value(y, *eb)))
        })
        &&& (!(x is List && y is List) ==> eq_anything_post(x, y, r, pre, post))
}

/// The contract of [`op_neq`], as one predicate over the views of its
/// operands and the solver before and after.
pub open spec fn op_neq_post(x: AbsVal, y: AbsVal, r: Result<Val, ExecError>, pre: Solver, post: Solver) -> bool {
        &&& ({
        post.wf()
        })
        &&& ({
        solver_evolves(pre, post)
        })
        &&& ({
        x matches AbsVal::List(xs) ==> (y matches AbsVal::List(ys) ==> if xs.len() != ys.len() {
            r matches Ok(v) && v@ == AbsVal::Bool(true) && solver_unchanged(
                pre,
                post,
            )
        } else if xs.len() == 0 {
            r matches Ok(v) && v@ == AbsVal::Bool(false) && solver_unchanged(
                pre,
                post,
            )
        } else {
            r matches Err(e) && e is Type && solver_unchanged(pre, post)
        })
        })
        &&& ({
        x matches AbsVal::Bits(a) ==> (y matches AbsVal::Bits(b) ==> (r matches Ok(v) && v@
            == AbsVal::Bool(a != b) && solver_unchanged(pre, post)))
        })
        &&& (!(x is List && y is List) ==> neq_anything_post(x, y, r, pre, post))
}

/// The contract of [`op_head`], as one predicate over the views of its
/// operands and the solver before and after.
pub open spec fn op_head_post(xs: AbsVal, r: Result<Val, ExecError>, pre: Solver, post: Solver) -> bool {
        &&& ({
        post.wf()
        })
        &&& ({
        solver_unchanged(pre, post)
        })
        &&& ({
        match xs {
            AbsVal::List(s) => if s.len() > 0 {
                r matches Ok(v) && v@ == s.last()
            } else {
                r matches Err(e) && e is Type
            },
            _ => r matches Err(e) && e is Type,
        }
        })
}

/// The contract of [`op_tail`], as one predicate over the views of its
/// operands and the solver before and after.
pub open spec fn op_tail_post(xs: AbsVal, r: Result<Val, ExecError>, pre: Solver, post: Solver) -> bool {
        &&& ({
        post.wf()
        })
        &&& ({
        solver_unchanged(pre, post)
        })
        &&& ({
        match xs {
            AbsVal::List(s) => r matches Ok(v) && (v@ matches AbsVal::List(t) && t == if s.len()
                > 0 {
                s.drop_last()
            } else {
                s
            }),
            _ => r matches Err(e) && e is Type,
        }
        })
}

/// The contract of [`abs_int`], as one predicate over the views of its
/// operands and the solver before and after.
pub open spec fn abs_int_post(x: AbsVal, r: Result<Val, ExecError>, pre: Solver, post: Solver) -> bool {
        &&& ({
        post.wf()
        })
        &&& ({
        match x {
            AbsVal::I128(a) => r matches Ok(v) && v@ == AbsVal::I128(
                if a == i128::MIN {
                    i128::MIN
                } else if a < 0 {
                    (-a) as i128
                } else {
                    a
                },
            ) && solver_unchanged(pre, post),
            AbsVal::Symbolic(s) => r matches Ok(v) && defines_fresh(
                pre,
                post,
                v,
            ) && (last_exp(post) matches Exp::Ite(c, t, e) && (*c matches Exp::Bvslt(
                a,
                z,
            ) && *a == Exp::Var(s) && is_i128_lit(*z, 0)) && (*t matches Exp::Bvneg(n) && *n
                == Exp::Var(s)) && *e == Exp::Var(s)),
            _ => r matches Err(e) && e is Type && solver_unchanged(pre, post),
        }
        })
}

/// The contract of [`add_int`], as one predicate over the views of its
/// operands and the solver before and after.
pub open spec fn add_int_post(x: AbsVal, y: AbsVal, r: Result<Val, ExecError>, pre: Solver, post: Solver) -> bool {
        &&& ({
        post.wf()
        })
        &&& ({
        match (x, y) {
            (AbsVal::I128(a), AbsVal::I128(b)) => r matches Ok(v) && v@ == AbsVal::I128(
                vstd::wrapping::i128_specs::wrapping_add(a, b),
            ) && solver_unchanged(pre, post),
            (AbsVal::Symbolic(_), AbsVal::Symbolic(_)) => r matches Ok(v) && defines_fresh(
                pre,
                post,
                v,
            ) && (last_exp(post) matches Exp::Bvadd(ea, eb) && is_smt_value(x, *ea)
                && is_smt_value(y, *eb)),
            (AbsVal::Symbolic(s), AbsVal::I128(b)) => if b == 0 {
                r matches Ok(v) && v@ == AbsVal::Symbolic(s) && solver_unchanged(
                    pre,
                    post,
                )
            } else {
                r matches Ok(v) && defines_fresh(pre, post, v) && (last_exp(
                    post,
                ) matches Exp::Bvadd(ea, eb) && is_smt_value(x, *ea) && is_smt_value(y, *eb))
            },
            (AbsVal::I128(a), AbsVal::Symbolic(s)) => if a == 0 {
                r matches Ok(v) && v@ == AbsVal::Symbolic(s) && solver_unchanged(
                    pre,
                    post,
                )
            } else {
                r matches Ok(v) && defines_fresh(pre, post, v) && (last_exp(
                    post,
                ) matches Exp::Bvadd(ea, eb) && is_smt_value(x, *ea) && is_smt_value(y, *eb))
            },
            _ => r matches Err(e) && e is Type && solver_unchanged(pre, post),
        }
        })
}

/// The contract of [`max_int`], as one predicate over the views of its
/// operands and the solver before and after.
pub open spec fn max_int_post(x: AbsVal, y: AbsVal, r: Result<Val, ExecError>, pre: Solver, post: Solver) -> bool {
        &&& ({
        post.wf()
        })
        &&& ({
        match (x, y) {
            (AbsVal::I128(a), AbsVal::I128(b)) => r matches Ok(v) && v@ == AbsVal::I128(
                if a >= b {
                    a
                } else {
                    b
                },
            ) && solver_unchanged(pre, post),
            (AbsVal::Symbolic(_), AbsVal::Symbolic(_))
            | (AbsVal::Symbolic(_), AbsVal::I128(_))
            | (AbsVal::I128(_), AbsVal::Symbolic(_)) => r matches Ok(v) && defines_fresh(
                pre,
                post,
                v,
            ) && is_compare_ite(last_exp(post), true, x, y),
            _ => r matches Err(e) && e is Type && solver_unchanged(pre, post),
        }
        })
}

/// The contract of [`min_int`], as one predicate over the views of its
/// operands and the solver before and after.
pub open spec fn min_int_post(x: AbsVal, y: AbsVal, r: Result<Val, ExecError>, pre: Solver, post: Solver) -> bool {
        &&& ({
        post.wf()
        })
        &&& ({
        match (x, y) {
            (AbsVal::I128(a), AbsVal::I128(b)) => r matches Ok(v) && v@ == AbsVal::I128(
                if a <= b {
                    a
                } else {
                    b
                },
            ) && solver_unchanged(pre, post),
            (AbsVal::Symbolic(_), AbsVal::Symbolic(_))
            | (AbsVal::Symbolic(_), AbsVal::I128(_))
            | (AbsVal::I128(_), AbsVal::Symbolic(_)) => r matches Ok(v) && defines_fresh(
                pre,
                post,
                v,
            ) && is_compare_ite(last_exp(post), false, x, y),
            _ => r matches Err(e) && e is Type && solver_unchanged(pre, post),
        }
        })
}

/// The contract of [`sub_nat`], as one predicate over the views of its
/// operands and the solver before and after.
pub open spec fn sub_nat_post(x: AbsVal, y: AbsVal, r: Result<Val, ExecError>, pre: Solver, post: Solver) -> bool {
        &&& ({
        post.wf()
        })
        &&& ({
        match (x, y) {
            (AbsVal::I128(a), AbsVal::I128(b)) => r matches Ok(v) && v@ == AbsVal::I128(
                {
                    let d = vstd::wrapping::i128_specs::wrapping_sub(a, b);
                    if d >= 0 {
                        d
                    } else {
                        0
                    }
                },
            ) && solver_unchanged(pre, post),
            (AbsVal::Symbolic(_), AbsVal::Symbolic(_))
            | (AbsVal::Symbolic(_), AbsVal::I128(_))
            | (AbsVal::I128(_), AbsVal::Symbolic(_)) => r matches Ok(v) && defines_fresh(
                pre,
                post,
                v,
            ) && (last_exp(post) matches Exp::Ite(c, t, e) && (*c matches Exp::Bvsgt(
                d1,
                z1,
            ) && (*d1 matches Exp::Bvsub(da, db) && is_smt_value(x, *da) && is_smt_value(
                y,
                *db,
            )) && is_i128_lit(*z1, 0)) && (*t matches Exp::Bvsub(ta, tb) && is_smt_value(x, *ta)
                && is_smt_value(y, *tb)) && is_i128_lit(*e, 0)),
            _ => r matches Err(e) && e is Type && solver_unchanged(pre, post),
        }
        })
}

/// The contract of [`pow2`], as one predicate over the views of its
/// operands and the solver before and after.
pub open spec fn pow2_post(x: AbsVal, r: Result<Val, ExecError>, pre: Solver, post: Solver) -> bool {
        &&& ({
        post.wf()
        })
        &&& ({
        match x {
            AbsVal::I128(a) => r matches Ok(v) && v@ == AbsVal::I128(
                vstd::wrapping::i128_specs::wrapping_shl(1i128, a as u32),
            ) && solver_unchanged(pre, post),
            AbsVal::Symbolic(s) => r matches Ok(v) && defines_fresh(
                pre,
                post,
                v,
            ) && (last_exp(post) matches Exp::Bvshl(one, e) && is_i128_lit(*one, 1) && *e
                == Exp::Var(s)),
            _ => r matches Err(e) && e is Type && solver_unchanged(pre, post),
        }
        })
}

/// The contract of [`pow_int`], as one predicate over the views of its
/// operands and the solver before and after.
pub open spec fn pow_int_post(x: AbsVal, y: AbsVal, r: Result<Val, ExecError>, pre: Solver, post: Solver) -> bool {
        &&& ({
        post.wf()
        })
        &&& ({
        solver_unchanged(pre, post)
        })
        &&& ({
        match (x, y) {
            (AbsVal::I128(a), AbsVal::I128(b)) => if 0 <= b <= u32::MAX && i128::MIN
                <= vstd::arithmetic::power::pow(a as int, b as nat) <= i128::MAX {
                r matches Ok(v) && v@ == AbsVal::I128(
                    vstd::arithmetic::power::pow(a as int, b as nat) as i128,
                )
            } else {
                r matches Err(e) && e is Overflow
            },
            _ => r matches Err(e) && e is Type,
        }
        })
}

/// The contract of [`op_lt`], as one predicate over the views of its
/// operands and the solver before and after.
pub open spec fn op_lt_post(x: AbsVal, y: AbsVal, r: Result<Val, ExecError>, pre: Solver, post: Solver) -> bool {
        &&& ({
        post.wf()
        })
        &&& ({
        match (x, y) {
            (AbsVal::I64(a), AbsVal::I64(b)) => r matches Ok(v) && v@ == AbsVal::Bool(a < b) && solver_unchanged(pre, post),
            (AbsVal::Symbolic(_), AbsVal::Symbolic(_))
            | (AbsVal::Symbolic(_), AbsVal::I64(_))
            | (AbsVal::I64(_), AbsVal::Symbolic(_)) => r matches Ok(v) && defines_fresh(
                pre,
                post,
                v,
            ) && (last_exp(post) matches Exp::Bvslt(ea, eb) && is_smt_value(x, *ea)
                && is_smt_value(y, *eb)),
            _ => r matches Err(e) && e is Type && solver_unchanged(pre, post),
        }
        })
}

/// The contract of [`op_gt`], as one predicate over the views of its
/// operands and the solver before and after.
pub open spec fn op_gt_post(x: AbsVal, y: AbsVal, r: Result<Val, ExecError>, pre: Solver, post: Solver) -> bool {
        &&& ({
        post.wf()
        })
        &&& ({
        match (x, y) {
            (AbsVal::I64(a), AbsVal::I64(b)) => r matches Ok(v) && v@ == AbsVal::Bool(a > b) && solver_unchanged(pre, post),
            (AbsVal::Symbolic(_), AbsVal::Symbolic(_))
            | (AbsVal::Symbolic(_), AbsVal::I64(_))
            | (AbsVal::I64(_), AbsVal::Symbolic(_)) => r matches Ok(v) && defines_fresh(
                pre,
                post,
                v,
            ) && (last_exp(post) matches Exp::Bvsgt(ea, eb) && is_smt_value(x, *ea)
                && is_smt_value(y, *eb)),
            _ => r matches Err(e) && e is Type && solver_unchanged(pre, post),
        }
        })
}

/// The contract of [`op_lteq`], as one predicate over the views of its
/// operands and the solver before and after.
pub open spec fn op_lteq_post(x: AbsVal, y: AbsVal, r: Result<Val, ExecError>, pre: Solver, post: Solver) -> bool {
        &&& ({
        post.wf()
        })
        &&& ({
        match (x, y) {
            (AbsVal::I64(a), AbsVal::I64(b)) => r matches Ok(v) && v@ == AbsVal::Bool(a <= b) && solver_unchanged(pre, post),
            (AbsVal::Symbolic(_), AbsVal::Symbolic(_))
            | (AbsVal::Symbolic(_), AbsVal::I64(_))
            | (AbsVal::I64(_), AbsVal::Symbolic(_)) => r matches Ok(v) && defines_fresh(
                pre,
                post,
                v,
            ) && (last_exp(post) matches Exp::Bvsle(ea, eb) && is_smt_value(x, *ea)
                && is_smt_value(y, *eb)),
            _ => r matches Err(e) && e is Type && solver_unchanged(pre, post),
        }
        })
}

/// The contract of [`op_gteq`], as one predicate over the views of its
/// operands and the solver before and after.
pub open spec fn op_gteq_post(x: AbsVal, y: AbsVal, r: Result<Val, ExecError>, pre: Solver, post: Solver) -> bool {
        &&& ({
        post.wf()
        })
        &&& ({
        match (x, y) {
            (AbsVal::I64(a), AbsVal::I64(b)) => r matches Ok(v) && v@ == AbsVal::Bool(a >= b) && solver_unchanged(pre, post),
            (AbsVal::Symbolic(_), AbsVal::Symbolic(_))
            | (AbsVal::Symbolic(_), AbsVal::I64(_))
            | (AbsVal::I64(_), AbsVal::Symbolic(_)) => r matches Ok(v) && defines_fresh(
                pre,
                post,
                v,
            ) && (last_exp(post) matches Exp::Bvsge(ea, eb) && is_smt_value(x, *ea)
                && is_smt_value(y, *eb)),
            _ => r matches Err(e) && e is Type && solver_unchanged(pre, post),
        }
        })
}

/// The contract of [`op_add`], as one predicate over the views of its
/// operands and the solver before and after.
pub open spec fn op_add_post(x: AbsVal, y: AbsVal, r: Result<Val, ExecError>, pre: Solver, post: Solver) -> bool {
        &&& ({
        post.wf()
        })
        &&& ({
        match (x, y) {
            (AbsVal::I64(a), AbsVal::I64(b)) => r matches Ok(v) && v@ == AbsVal::I64(vstd::wrapping::i64_specs::wrapping_add(a, b)) && solver_unchanged(pre, post),
            (AbsVal::Symbolic(_), AbsVal::Symbolic(_))
            | (AbsVal::Symbolic(_), AbsVal::I64(_))
            | (AbsVal::I64(_), AbsVal::Symbolic(_)) => r matches Ok(v) && defines_fresh(
                pre,
                post,
                v,
            ) && (last_exp(post) matches Exp::Bvadd(ea, eb) && is_smt_value(x, *ea)
                && is_smt_value(y, *eb)),
            _ => r matches Err(e) && e is Type && solver_unchanged(pre, post),
        }
        })
}

/// The contract of [`op_sub`], as one predicate over the views of its
/// operands and the solver before and after.
pub open spec fn op_sub_post(x: AbsVal, y: AbsVal, r: Result<Val, ExecError>, pre: Solver, post: Solver) -> bool {
        &&& ({
        post.wf()
        })
        &&& ({
        match (x, y) {
            (AbsVal::I64(a), AbsVal::I64(b)) => r matches Ok(v) && v@ == AbsVal::I64(vstd::wrapping::i64_specs::wrapping_sub(a, b)) && solver_unchanged(pre, post),
            (AbsVal::Symbolic(_), AbsVal::Symbolic(_))
            | (AbsVal::Symbolic(_), AbsVal::I64(_))
            | (AbsVal::I64(_), AbsVal::Symbolic(_)) => r matches Ok(v) && defines_fresh(
                pre,
                post,
                v,
            ) && (last_exp(post) matches Exp::Bvsub(ea, eb) && is_smt_value(x, *ea)
                && is_smt_value(y, *eb)),
            _ => r matches Err(e) && e is Type && solver_unchanged(pre, post),
        }
        })
}

/// The contract of [`not_bool`], as one predicate over the views of its
/// operands and the solver before and after.
pub open spec fn not_bool_post(x: AbsVal, r: Result<Val, ExecError>, pre: Solver, post: Solver) -> bool {
        &&& ({
        post.wf()
        })
        &&& ({
        match x {
            AbsVal::Bool(a) => r matches Ok(v) && v@ == AbsVal::Bool(!a) && solver_unchanged(pre, post),
            AbsVal::Symbolic(_) => r matches Ok(v) && defines_fresh(
                pre,
                post,
                v,
            ) && (last_exp(post) matches Exp::Not(ea) && is_smt_value(x, *ea)),
            _ => r matches Err(e) && e is Type && solver_unchanged(pre, post),
        }
        })
}

/// The contract of [`and_bool`], as one predicate over the views of its
/// operands and the solver before and after.
pub open spec fn and_bool_post(x: AbsVal, y: AbsVal, r: Result<Val, ExecError>, pre: Solver, post: Solver) -> bool {
        &&& ({
        post.wf()
        })
        &&& ({
        match (x, y) {
            (AbsVal::Bool(a), AbsVal::Bool(b)) => r matches Ok(v) && v@ == AbsVal::Bool(a && b) && solver_unchanged(pre, post),
            (AbsVal::Symbolic(_), AbsVal::Symbolic(_))
            | (AbsVal::Symbolic(_), AbsVal::Bool(_))
            | (AbsVal::Bool(_), AbsVal::Symbolic(_)) => r matches Ok(v) && defines_fresh(
                pre,
                post,
                v,
            ) && (last_exp(post) matches Exp::And(ea, eb) && is_smt_value(x, *ea)
                && is_smt_value(y, *eb)),
            _ => r matches Err(e) && e is Type && solver_unchanged(pre, post),
        }
        })
}

/// The contract of [`or_bool`], as one predicate over the views of its
/// operands and the solver before and after.
pub open spec fn or_bool_post(x: AbsVal, y: AbsVal, r: Result<Val, ExecError>, pre: Solver, post: Solver) -> bool {
        &&& ({
        post.wf()
        })
        &&& ({
        match (x, y) {
            (AbsVal::Bool(a), AbsVal::Bool(b)) => r matches Ok(v) && v@ == AbsVal::Bool(a || b) && solver_unchanged(pre, post),
            (AbsVal::Symbolic(_), AbsVal::Symbolic(_))
            | (AbsVal::Symbolic(_), AbsVal::Bool(_))
            | (AbsVal::Bool(_), AbsVal::Symbolic(_)) => r matches Ok(v) && defines_fresh(
                pre,
                post,
                v,
            ) && (last_exp(post) matches Exp::Or(ea, eb) && is_smt_value(x, *ea)
                && is_smt_value(y, *eb)),
            _ => r matches Err(e) && e is Type && solver_unchanged(pre, post),
        }
        })
}

/// The contract of [`eq_bool`], as one predicate over the views of its
/// operands and the solver before and after.
pub open spec fn eq_bool_post(x: AbsVal, y: AbsVal, r: Result<Val, ExecError>, pre: Solver, post: Solver) -> bool {
        &&& ({
        post.wf()
        })
        &&& ({
        match (x, y) {
            (AbsVal::Bool(a), AbsVal::Bool(b)) => r matches Ok(v) && v@ == AbsVal::Bool(a == b) && solver_unchanged(pre, post),
            (AbsVal::Symbolic(_), AbsVal::Symbolic(_))
            | (AbsVal::Symbolic(_), AbsVal::Bool(_))
            | (AbsVal::Bool(_), AbsVal::Symbolic(_)) => r matches Ok(v) && defines_fresh(
                pre,
                post,
                v,
            ) && (last_exp(post) matches Exp::Eq(ea, eb) && is_smt_value(x, *ea)
                && is_smt_value(y, *eb)),
            _ => r matches Err(e) && e is Type && solver_unchanged(pre, post),
        }
        })
}

/// The contract of [`eq_int`], as one predicate over the views of its
/// operands and the solver before and after.
pub open spec fn eq_int_post(x: AbsVal, y: AbsVal, r: Result<Val, ExecError>, pre: Solver, post: Solver) -> bool {
        &&& ({
        post.wf()
        })
        &&& ({
        match (x, y) {
            (AbsVal::I128(a), AbsVal::I128(b)) => r matches Ok(v) && v@ == AbsVal::Bool(a == b) && solver_unchanged(pre, post),
            (AbsVal::Symbolic(_), AbsVal::Symbolic(_))
            | (AbsVal::Symbolic(_), AbsVal::I128(_))
            | (AbsVal::I128(_), AbsVal::Symbolic(_)) => r matches Ok(v) && defines_fresh(
                pre,
                post,
                v,
            ) && (last_exp(post) matches Exp::Eq(ea, eb) && is_smt_value(x, *ea)
                && is_smt_value(y, *eb)),
            _ => r matches Err(e) && e is Type && solver_unchanged(pre, post),
        }
        })
}

/// The contract of [`lteq_int`], as one predicate over the views of its
/// operands and the solver before and after.
pub open spec fn lteq_int_post(x: AbsVal, y: AbsVal, r: Result<Val, ExecError>, pre: Solver, post: Solver) -> bool {
        &&& ({
        post.wf()
        })
        &&& ({
        match (x, y) {
            (AbsVal::I128(a), AbsVal::I128(b)) => r matches Ok(v) && v@ == AbsVal::Bool(a <= b) && solver_unchanged(pre, post),
            (AbsVal::Symbolic(_), AbsVal::Symbolic(_))
            | (AbsVal::Symbolic(_), AbsVal::I128(_))
            | (AbsVal::I128(_), AbsVal::Symbolic(_)) => r matches Ok(v) && defines_fresh(
                pre,
                post,
                v,
            ) && (last_exp(post) matches Exp::Bvsle(ea, eb) && is_smt_value(x, *ea)
                && is_smt_value(y, *eb)),
            _ => r matches Err(e) && e is Type && solver_unchanged(pre, post),
        }
        })
}

/// The contract of [`gteq_int`], as one predicate over the views of its
/// operands and the solver before and after.
pub open spec fn gteq_int_post(x: AbsVal, y: AbsVal, r: Result<Val, ExecError>, pre: Solver, post: Solver) -> bool {
        &&& ({
        post.wf()
        })
        &&& ({
        match (x, y) {
            (AbsVal::I128(a), AbsVal::I128(b)) => r matches Ok(v) && v@ == AbsVal::Bool(a >= b) && solver_unchanged(pre, post),
            (AbsVal::Symbolic(_), AbsVal::Symbolic(_))
            | (AbsVal::Symbolic(_), AbsVal::I128(_))
            | (AbsVal::I128(_), AbsVal::Symbolic(_)) => r matches Ok(v) && defines_fresh(
                pre,
                post,
                v,
            ) && (last_exp(post) matches Exp::Bvsge(ea, eb) && is_smt_value(x, *ea)
                && is_smt_value(y, *eb)),
            _ => r matches Err(e) && e is Type && solver_unchanged(pre, post),
        }
        })
}

/// The contract of [`lt_int`], as one predicate over the views of its
/// operands and the solver before and after.
pub open spec fn lt_int_post(x: AbsVal, y: AbsVal, r: Result<Val, ExecError>, pre: Solver, post: Solver) -> bool {
        &&& ({
        post.wf()
        })
        &&& ({
        match (x, y) {
            (AbsVal::I128(a), AbsVal::I128(b)) => r matches Ok(v) && v@ == AbsVal::Bool(a < b) && solver_unchanged(pre, post),
            (AbsVal::Symbolic(_), AbsVal::Symbolic(_))
            | (AbsVal::Symbolic(_), AbsVal::I128(_))
            | (AbsVal::I128(_), AbsVal::Symbolic(_)) => r matches Ok(v) && defines_fresh(
                pre,
                post,
                v,
            ) && (last_exp(post) matches Exp::Bvslt(ea, eb) && is_smt_value(x, *ea)
                && is_smt_value(y, *eb)),
            _ => r matches Err(e) && e is Type && solver_unchanged(pre, post),
        }
        })
}

/// The contract of [`gt_int`], as one predicate over the views of its
/// operands and the solver before and after.
pub open spec fn gt_int_post(x: AbsVal, y: AbsVal, r: Result<Val, ExecError>, pre: Solver, post: Solver) -> bool {
        &&& ({
        post.wf()
        })
        &&& ({
        match (x, y) {
            (AbsVal::I128(a), AbsVal::I128(b)) => r matches Ok(v) && v@ == AbsVal::Bool(a > b) && solver_unchanged(pre, post),
            (AbsVal::Symbolic(_), AbsVal::Symbolic(_))
            | (AbsVal::Symbolic(_), AbsVal::I128(_))
            | (AbsVal::I128(_), AbsVal::Symbolic(_)) => r matches Ok(v) && defines_fresh(
                pre,
                post,
                v,
            ) && (last_exp(post) matches Exp::Bvsgt(ea, eb) && is_smt_value(x, *ea)
                && is_smt_value(y, *eb)),
            _ => r matches Err(e) && e is Type && solver_unchanged(pre, post),
        }
        })
}

/// The contract of [`sub_int`], as one predicate over the views of its
/// operands and the solver before and after.
pub open spec fn sub_int_post(x: AbsVal, y: AbsVal, r: Result<Val, ExecError>, pre: Solver, post: Solver) -> bool {
        &&& ({
        post.wf()
        })
        &&& ({
        match (x, y) {
            (AbsVal::I128(a), AbsVal::I128(b)) => r matches Ok(v) && v@ == AbsVal::I128(vstd::wrapping::i128_specs::wrapping_sub(a, b)) && solver_unchanged(pre, post),
            (AbsVal::Symbolic(_), AbsVal::Symbolic(_))
            | (AbsVal::Symbolic(_), AbsVal::I128(_))
            | (AbsVal::I128(_), AbsVal::Symbolic(_)) => r matches Ok(v) && defines_fresh(
                pre,
                post,
                v,
            ) && (last_exp(post) matches Exp::Bvsub(ea, eb) && is_smt_value(x, *ea)
                && is_smt_value(y, *eb)),
            _ => r matches Err(e) && e is Type && solver_unchanged(pre, post),
        }
        })
}

/// The contract of [`mult_int`], as one predicate over the views of its
/// operands and the solver before and after.
pub open spec fn mult_int_post(x: AbsVal, y: AbsVal, r: Result<Val, ExecError>, pre: Solver, post: Solver) -> bool {
        &&& ({
        post.wf()
        })
        &&& ({
        match (x, y) {
            (AbsVal::I128(a), AbsVal::I128(b)) => r matches Ok(v) && v@ == AbsVal::I128(vstd::wrapping::i128_specs::wrapping_mul(a, b)) && solver_unchanged(pre, post),
            (AbsVal::Symbolic(_), AbsVal::Symbolic(_))
            | (AbsVal::Symbolic(_), AbsVal::I128(_))
            | (AbsVal::I128(_), AbsVal::Symbolic(_)) => r matches Ok(v) && defines_fresh(
                pre,
                post,
                v,
            ) && (last_exp(post) matches Exp::Bvmul(ea, eb) && is_smt_value(x, *ea)
                && is_smt_value(y, *eb)),
            _ => r matches Err(e) && e is Type && solver_unchanged(pre, post),
        }
        })
}

/// The contract of [`neg_int`], as one predicate over the views of its
/// operands and the solver before and after.
pub open spec fn neg_int_post(x: AbsVal, r: Result<Val, ExecError>, pre: Solver, post: Solver) -> bool {
        &&& ({
        post.wf()
        })
        &&& ({
        match x {
            AbsVal::I128(a) => r matches Ok(v) && v@ == AbsVal::I128(vstd::wrapping::i128_specs::wrapping_sub(0i128, a)) && solver_unchanged(pre, post),
            AbsVal::Symbolic(_) => r matches Ok(v) && defines_fresh(
                pre,
                post,
                v,
            ) && (last_exp(post) matches Exp::Bvneg(ea) && is_smt_value(x, *ea)),
            _ => r matches Err(e) && e is Type && solver_unchanged(pre, post),
        }
        })
}

/// The contract of [`tdiv_int`], as one predicate over the views of its
/// operands and the solver before and after.
pub open spec fn tdiv_int_post(x: AbsVal, y: AbsVal, r: Result<Val, ExecError>, pre: Solver, post: Solver) -> bool {
        &&& ({
        post.wf()
        })
        &&& ({
        match (x, y) {
            (AbsVal::I128(a), AbsVal::I128(b)) => r matches Ok(v) && v@ == AbsVal::I128(tdiv_i128(a, b)) && solver_unchanged(pre, post),
            (AbsVal::Symbolic(_), AbsVal::Symbolic(_))
            | (AbsVal::Symbolic(_), AbsVal::I128(_))
            | (AbsVal::I128(_), AbsVal::Symbolic(_)) => r matches Ok(v) && defines_fresh(
                pre,
                post,
                v,
            ) && (last_exp(post) matches Exp::Bvsdiv(ea, eb) && is_smt_value(x, *ea)
                && is_smt_value(y, *eb)),
            _ => r matches Err(e) && e is Type && solver_unchanged(pre, post),
        }
        })
}

/// The contract of [`tmod_int`], as one predicate over the views of its
/// operands and the solver before and after.
pub open spec fn tmod_int_post(x: AbsVal, y: AbsVal, r: Result<Val, ExecError>, pre: Solver, post: Solver) -> bool {
        &&& ({
        post.wf()
        })
        &&& ({
        match (x, y) {
            (AbsVal::I128(a), AbsVal::I128(b)) => r matches Ok(v) && v@ == AbsVal::I128(tmod_i128(a, b)) && solver_unchanged(pre, post),
            (AbsVal::Symbolic(_), AbsVal::Symbolic(_))
            | (AbsVal::Symbolic(_), AbsVal::I128(_))
            | (AbsVal::I128(_), AbsVal::Symbolic(_)) => r matches Ok(v) && defines_fresh(
                pre,
                post,
                v,
            ) && (last_exp(post) matches Exp::Bvsmod(ea, eb) && is_smt_value(x, *ea)
                && is_smt_value(y, *eb)),
            _ => r matches Err(e) && e is Type && solver_unchanged(pre, post),
        }
        })
}

/// The contract of [`udiv_int`], as one predicate over the views of its
/// operands and the solver before and after.
pub open spec fn udiv_int_post(x: AbsVal, y: AbsVal, r: Result<Val, ExecError>, pre: Solver, post: Solver) -> bool {
        &&& ({
        post.wf()
        })
        &&& ({
        match (x, y) {
            (AbsVal::I128(a), AbsVal::I128(b)) => r matches Ok(v) && v@ == AbsVal::I128(tdiv_i128(a, b)) && solver_unchanged(pre, post),
            (AbsVal::Symbolic(_), AbsVal::Symbolic(_))
            | (AbsVal::Symbolic(_), AbsVal::I128(_))
            | (AbsVal::I128(_), AbsVal::Symbolic(_)) => r matches Ok(v) && defines_fresh(
                pre,
                post,
                v,
            ) && (last_exp(post) matches Exp::Bvudiv(ea, eb) && is_smt_value(x, *ea)
                && is_smt_value(y, *eb)),
            _ => r matches Err(e) && e is Type && solver_unchanged(pre, post),
        }
        })
}

/// The contract of [`shl_int`], as one predicate over the views of its
/// operands and the solver before and after.
pub open spec fn shl_int_post(x: AbsVal, y: AbsVal, r: Result<Val, ExecError>, pre: Solver, post: Solver) -> bool {
        &&& ({
        post.wf()
        })
        &&& ({
        match (x, y) {
            (AbsVal::I128(a), AbsVal::I128(b)) => r matches Ok(v) && v@ == AbsVal::I128(vstd::wrapping::i128_specs::wrapping_shl(a, b as u32)) && solver_unchanged(pre, post),
            (AbsVal::Symbolic(_), AbsVal::Symbolic(_))
            | (AbsVal::Symbolic(_), AbsVal::I128(_))
            | (AbsVal::I128(_), AbsVal::Symbolic(_)) => r matches Ok(v) && defines_fresh(
                pre,
                post,
                v,
            ) && (last_exp(post) matches Exp::Bvshl(ea, eb) && is_smt_value(x, *ea)
                && is_smt_value(y, *eb)),
            _ => r matches Err(e) && e is Type && solver_unchanged(pre, post),
        }
        })
}

/// The contract of [`shr_int`], as one predicate over the views of its
/// operands and the solver before and after.
pub open spec fn shr_int_post(x: AbsVal, y: AbsVal, r: Result<Val, ExecError>, pre: Solver, post: Solver) -> bool {
        &&& ({
        post.wf()
        })
        &&& ({
        match (x, y) {
            (AbsVal::I128(a), AbsVal::I128(b)) => r matches Ok(v) && v@ == AbsVal::I128(vstd::wrapping::i128_specs::wrapping_shr(a, b as u32)) && solver_unchanged(pre, post),
            (AbsVal::Symbolic(_), AbsVal::Symbolic(_))
            | (AbsVal::Symbolic(_), AbsVal::I128(_))
            | (AbsVal::I128(_), AbsVal::Symbolic(_)) => r matches Ok(v) && defines_fresh(
                pre,
                post,
                v,
            ) && (last_exp(post) matches Exp::Bvashr(ea, eb) && is_smt_value(x, *ea)
                && is_smt_value(y, *eb)),
            _ => r matches Err(e) && e is Type && solver_unchanged(pre, post),
        }
        })
}

/// The contract of [`shl_mach_int`], as one predicate over the views of its
/// operands and the solver before and after.
pub open spec fn shl_mach_int_post(x: AbsVal, y: AbsVal, r: Result<Val, ExecError>, pre: Solver, post: Solver) -> bool {
        &&& ({
        post.wf()
        })
        &&& ({
        match (x, y) {
            (AbsVal::I64(a), AbsVal::I64(b)) => r matches Ok(v) && v@ == AbsVal::I64(vstd::wrapping::i64_specs::wrapping_shl(a, b as u32)) && solver_unchanged(pre, post),
            (AbsVal::Symbolic(_), AbsVal::Symbolic(_))
            | (AbsVal::Symbolic(_), AbsVal::I64(_))
            | (AbsVal::I64(_), AbsVal::Symbolic(_)) => r matches Ok(v) && defines_fresh(
                pre,
                post,
                v,
            ) && (last_exp(post) matches Exp::Bvshl(ea, eb) && is_smt_value(x, *ea)
                && is_smt_value(y, *eb)),
            _ => r matches Err(e) && e is Type && solver_unchanged(pre, post),
        }
        })
}

/// The contract of [`shr_mach_int`], as one predicate over the views of its
/// operands and the solver before and after.
pub open spec fn shr_mach_int_post(x: AbsVal, y: AbsVal, r: Result<Val, ExecError>, pre: Solver, post: Solver) -> bool {
        &&& ({
        post.wf()
        })
        &&& ({
        match (x, y) {
            (AbsVal::I64(a), AbsVal::I64(b)) => r matches Ok(v) && v@ == AbsVal::I64(vstd::wrapping::i64_specs::wrapping_shr(a, b as u32)) && solver_unchanged(pre, post),
            (AbsVal::Symbolic(_), AbsVal::Symbolic(_))
            | (AbsVal::Symbolic(_), AbsVal::I64(_))
            | (AbsVal::I64(_), AbsVal::Symbolic(_)) => r matches Ok(v) && defines_fresh(
                pre,
                post,
                v,
            ) && (last_exp(post) matches Exp::Bvashr(ea, eb) && is_smt_value(x, *ea)
                && is_smt_value(y, *eb)),
            _ => r matches Err(e) && e is Type && solver_unchanged(pre, post),
        }
        })
}

/// The contract of [`eq_bits`], as one predicate over the views of its
/// operands and the solver before and after.
pub open spec fn eq_bits_post(x: AbsVal, y: AbsVal, r: Result<Val, ExecError>, pre: Solver, post: Solver) -> bool {
        &&& ({
        post.wf()
        })
        &&& ({
        match (x, y) {
            (AbsVal::Bits(a), AbsVal::Bits(b)) => r matches Ok(v) && v@ == AbsVal::Bool(a == b) && solver_unchanged(pre, post),
            (AbsVal::Symbolic(_), AbsVal::Symbolic(_))
            | (AbsVal::Symbolic(_), AbsVal::Bits(_))
            | (AbsVal::Bits(_), AbsVal::Symbolic(_)) => r matches Ok(v) && defines_fresh(
                pre,
                post,
                v,
            ) && (last_exp(post) matches Exp::Eq(ea, eb) && is_smt_value(x, *ea)
                && is_smt_value(y, *eb)),
            _ => r matches Err(e) && e is Type && solver_unchanged(pre, post),
        }
        })
}

/// The contract of [`neq_bits`], as one predicate over the views of its
/// operands and the solver before and after.
pub open spec fn neq_bits_post(x: AbsVal, y: AbsVal, r: Result<Val, ExecError>, pre: Solver, post: Solver) -> bool {
        &&& ({
        post.wf()
        })
        &&& ({
        match (x, y) {
            (AbsVal::Bits(a), AbsVal::Bits(b)) => r matches Ok(v) && v@ == AbsVal::Bool(a != b) && solver_unchanged(pre, post),
            (AbsVal::Symbolic(_), AbsVal::Symbolic(_))
            | (AbsVal::Symbolic(_), AbsVal::Bits(_))
            | (AbsVal::Bits(_), AbsVal::Symbolic(_)) => r matches Ok(v) && defines_fresh(
                pre,
                post,
                v,
            ) && (last_exp(post) matches Exp::Neq(ea, eb) && is_smt_value(x, *ea)
                && is_smt_value(y, *eb)),
            _ => r matches Err(e) && e is Type && solver_unchanged(pre, post),
        }
        })
}

/// The contract of [`not_bits`], as one predicate over the views of its
/// operands and the solver before and after.
pub open spec fn not_bits_post(x: AbsVal, r: Result<Val, ExecError>, pre: Solver, post: Solver) -> bool {
        &&& ({
        post.wf()
        })
        &&& ({
        match x {
            AbsVal::Bits(a) => r matches Ok(v) && (v@ matches AbsVal::Bits(c) && c.wf() && c.width() == a.width()
                && c.value() as int == pow2_spec(a.width() as nat) - 1 - a.value())
                && solver_unchanged(pre, post),
            AbsVal::Symbolic(_) => r matches Ok(v) && defines_fresh(
                pre,
                post,
                v,
            ) && (last_exp(post) matches Exp::Bvnot(ea) && is_smt_value(x, *ea)),
            _ => r matches Err(e) && e is Type && solver_unchanged(pre, post),
        }
        })
}

/// The contract of [`xor_bits`], as one predicate over the views of its
/// operands and the solver before and after.
pub open spec fn xor_bits_post(x: AbsVal, y: AbsVal, r: Result<Val, ExecError>, pre: Solver, post: Solver) -> bool {
        &&& ({
        post.wf()
        })
        &&& ({
        match (x, y) {
            (AbsVal::Bits(a), AbsVal::Bits(b)) => if a.width() == b.width() {
                r matches Ok(v) && (v@ matches AbsVal::Bits(c) && c.wf() && c.width() == a.width()
                    && c.value() == (a.value() ^ b.value())) && solver_unchanged(pre, post)
            } else {
                r matches Err(e) && e is Type && solver_unchanged(pre, post)
            },
            (AbsVal::Symbolic(_), AbsVal::Symbolic(_))
            | (AbsVal::Symbolic(_), AbsVal::Bits(_))
            | (AbsVal::Bits(_), AbsVal::Symbolic(_)) => r matches Ok(v) && defines_fresh(
                pre,
                post,
                v,
            ) && (last_exp(post) matches Exp::Bvxor(ea, eb) && is_smt_value(x, *ea)
                && is_smt_value(y, *eb)),
            _ => r matches Err(e) && e is Type && solver_unchanged(pre, post),
        }
        })
}

/// The contract of [`or_bits`], as one predicate over the views of its
/// operands and the solver before and after.
pub open spec fn or_bits_post(x: AbsVal, y: AbsVal, r: Result<Val, ExecError>, pre: Solver, post: Solver) -> bool {
        &&& ({
        post.wf()
        })
        &&& ({
        match (x, y) {
            (AbsVal::Bits(a), AbsVal::Bits(b)) => if a.width() == b.width() {
                r matches Ok(v) && (v@ matches AbsVal::Bits(c) && c.wf() && c.width() == a.width()
                    && c.value() == (a.value() | b.value())) && solver_unchanged(pre, post)
            } else {
                r matches Err(e) && e is Type && solver_unchanged(pre, post)
            },
            (AbsVal::Symbolic(_), AbsVal::Symbolic(_))
            | (AbsVal::Symbolic(_), AbsVal::Bits(_))
            | (AbsVal::Bits(_), AbsVal::Symbolic(_)) => r matches Ok(v) && defines_fresh(
                pre,
                post,
                v,
            ) && (last_exp(post) matches Exp::Bvor(ea, eb) && is_smt_value(x, *ea)
                && is_smt_value(y, *eb)),
            _ => r matches Err(e) && e is Type && solver_unchanged(pre, post),
        }
        })
}

/// The contract of [`and_bits`], as one predicate over the views of its
/// operands and the solver before and after.
pub open spec fn and_bits_post(x: AbsVal, y: AbsVal, r: Result<Val, ExecError>, pre: Solver, post: Solver) -> bool {
        &&& ({
        post.wf()
        })
        &&& ({
        match (x, y) {
            (AbsVal::Bits(a), AbsVal::Bits(b)) => if a.width() == b.width() {
                r matches Ok(v) && (v@ matches AbsVal::Bits(c) && c.wf() && c.width() == a.width()
                    && c.value() == (a.value() & b.value())) && solver_unchanged(pre, post)
            } else {
                r matches Err(e) && e is Type && solver_unchanged(pre, post)
            },
            (AbsVal::Symbolic(_), AbsVal::Symbolic(_))
            | (AbsVal::Symbolic(_), AbsVal::Bits(_))
            | (AbsVal::Bits(_), AbsVal::Symbolic(_)) => r matches Ok(v) && defines_fresh(
                pre,
                post,
                v,
            ) && (last_exp(post) matches Exp::Bvand(ea, eb) && is_smt_value(x, *ea)
                && is_smt_value(y, *eb)),
            _ => r matches Err(e) && e is Type && solver_unchanged(pre, post),
        }
        })
}

/// The contract of [`add_bits`], as one predicate over the views of its
/// operands and the solver before and after.
pub open spec fn add_bits_post(x: AbsVal, y: AbsVal, r: Result<Val, ExecError>, pre: Solver, post: Solver) -> bool {
        &&& ({
        post.wf()
        })
        &&& ({
        match (x, y) {
            (AbsVal::Bits(a), AbsVal::Bits(b)) => if a.width() == b.width() {
                r matches Ok(v) && (v@ matches AbsVal::Bits(c) && c.wf() && c.width() == a.width()
                    && c.value() as int == (a.value() + b.value()) % (pow2_spec(a.width() as nat) as int)) && solver_unchanged(pre, post)
            } else {
                r matches Err(e) && e is Type && solver_unchanged(pre, post)
            },
            (AbsVal::Symbolic(_), AbsVal::Symbolic(_))
            | (AbsVal::Symbolic(_), AbsVal::Bits(_))
            | (AbsVal::Bits(_), AbsVal::Symbolic(_)) => r matches Ok(v) && defines_fresh(
                pre,
                post,
                v,
            ) && (last_exp(post) matches Exp::Bvadd(ea, eb) && is_smt_value(x, *ea)
                && is_smt_value(y, *eb)),
            _ => r matches Err(e) && e is Type && solver_unchanged(pre, post),
        }
        })
}

/// The contract of [`sub_bits`], as one predicate over the views of its
/// operands and the solver before and after.
pub open spec fn sub_bits_post(x: AbsVal, y: AbsVal, r: Result<Val, ExecError>, pre: Solver, post: Solver) -> bool {
        &&& ({
        post.wf()
        })
        &&& ({
        match (x, y) {
            (AbsVal::Bits(a), AbsVal::Bits(b)) => if a.width() == b.width() {
                r matches Ok(v) && (v@ matches AbsVal::Bits(c) && c.wf() && c.width() == a.width()
                    && c.value() as int == (a.value() - b.value()) % (pow2_spec(a.width() as nat) as int)) && solver_unchanged(pre, post)
            } else {
                r matches Err(e) && e is Type && solver_unchanged(pre, post)
            },
            (AbsVal::Symbolic(_), AbsVal::Symbolic(_))
            | (AbsVal::Symbolic(_), AbsVal::Bits(_))
            | (AbsVal::Bits(_), AbsVal::Symbolic(_)) => r matches Ok(v) && defines_fresh(
                pre,
                post,
                v,
            ) && (last_exp(post) matches Exp::Bvsub(ea, eb) && is_smt_value(x, *ea)
                && is_smt_value(y, *eb)),
            _ => r matches Err(e) && e is Type && solver_unchanged(pre, post),
        }
        })
}

} // verus!
