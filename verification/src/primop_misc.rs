//! Primitive operations on strings, lists and vectors, undefined values,
//! event publication, and the if-then-else combinator.

use vstd::prelude::*;
use crate::bitvector::Sbits;
use crate::error::ExecError;
use crate::frame::LocalFrame;
use crate::smt::{Exp, Def, Solver, SmtTy, Event};
use crate::value::{Val, AbsVal, UVal, Sym, abs_wf, vals_view, clone_val, lemma_vals_view_len, lemma_vals_view_index};
use crate::primop::{type_error, define_result, declare_result, defines_fresh, declares_fresh, solver_unchanged, solver_evolves, last_exp, is_smt_value, is_smt_base, smt_value, smt_sbits, smt_i128};
use crate::strings::{dec_string_i128, hex_string_i128, dec_string_u32, parse_i128_decimal};

verus! {

/// Equality of strings.
pub fn eq_string(lhs: Val, rhs: Val, _solver: &mut Solver) -> (r: Result<Val, ExecError>)
    requires
        old(_solver).wf(),
    ensures
        eq_string_post(lhs@, rhs@, r, *old(_solver), *final(_solver)),
{
    match (lhs, rhs) {
        (Val::String(a), Val::String(b)) => Ok(Val::Bool(a == b)),
        _ => Err(type_error("eq_string")),
    }
}

/// Concatenation of strings.
pub fn concat_str(lhs: Val, rhs: Val, _solver: &mut Solver) -> (r: Result<Val, ExecError>)
    requires
        old(_solver).wf(),
    ensures
        concat_str_post(lhs@, rhs@, r, *old(_solver), *final(_solver)),
{
    match (lhs, rhs) {
        (Val::String(a), Val::String(b)) => Ok(Val::String(a.concat(b.as_str()))),
        _ => Err(type_error("concat_str")),
    }
}

/// Render an integer in hexadecimal, or name a symbolic handle.
pub fn hex_str(n: Val, _solver: &mut Solver) -> (r: Result<Val, ExecError>)
    requires
        old(_solver).wf(),
    ensures
        hex_str_post(n@, r, *old(_solver), *final(_solver)),
{
    match n {
        Val::I128(x) => Ok(Val::String(hex_string_i128(x))),
        Val::Symbolic(s) => {
            let mut out = String::new();
            out.append("0x[v");
            let digits = dec_string_u32(s);
            out.append(digits.as_str());
            out.append("]");
            Ok(Val::String(out))
        },
        _ => Err(type_error("hex_str")),
    }
}

/// Render an integer in decimal, or name a symbolic handle.
pub fn dec_str(n: Val, _solver: &mut Solver) -> (r: Result<Val, ExecError>)
    requires
        old(_solver).wf(),
    ensures
        dec_str_post(n@, r, *old(_solver), *final(_solver)),
{
    match n {
        Val::I128(x) => Ok(Val::String(dec_string_i128(x))),
        Val::Symbolic(s) => {
            let mut out = String::new();
            out.append("[v");
            let digits = dec_string_u32(s);
            out.append(digits.as_str());
            out.append("]");
            Ok(Val::String(out))
        },
        _ => Err(type_error("dec_str")),
    }
}

/// Strings are never symbolic, so an undefined string is poison.
pub fn undefined_string(_x: Val, _solver: &mut Solver) -> (r: Result<Val, ExecError>)
    requires
        old(_solver).wf(),
    ensures
        undefined_string_post(_x@, r, *old(_solver), *final(_solver)),
{
    Ok(Val::Poison)
}

/// Parse a decimal string as an integer; anything unparseable overflows.
pub fn string_to_i128(s: Val, _solver: &mut Solver) -> (r: Result<Val, ExecError>)
    requires
        old(_solver).wf(),
    ensures
        string_to_i128_post(s@, r, *old(_solver), *final(_solver)),
{
    match s {
        Val::String(t) => match parse_i128_decimal(&t) {
            Some(x) => Ok(Val::I128(x)),
            None => Err(ExecError::Overflow),
        },
        _ => Err(type_error("%string->%i")),
    }
}

/// Whether one string starts with another.
pub fn string_startswith(s: Val, prefix: Val, _solver: &mut Solver) -> (r: Result<Val, ExecError>)
    requires
        old(_solver).wf(),
    ensures
        string_startswith_post(s@, prefix@, r, *old(_solver), *final(_solver)),
{
    match (s, prefix) {
        (Val::String(a), Val::String(p)) => Ok(Val::Bool(crate::strings::starts_with(&a, &p))),
        _ => Err(type_error("string_startswith")),
    }
}

/// The length of a string in characters.
pub fn string_length(s: Val, _solver: &mut Solver) -> (r: Result<Val, ExecError>)
    requires
        old(_solver).wf(),
    ensures
        string_length_post(s@, r, *old(_solver), *final(_solver)),
{
    match s {
        Val::String(t) => {
            let n = t.as_str().unicode_len();
            Ok(Val::I128(n as i128))
        },
        _ => Err(type_error("string_length")),
    }
}

/// Drop the first `n` characters of a string; dropping more than the
/// length leaves the empty string.
pub fn string_drop(s: Val, n: Val, _solver: &mut Solver) -> (r: Result<Val, ExecError>)
    requires
        old(_solver).wf(),
    ensures
        string_drop_post(s@, n@, r, *old(_solver), *final(_solver)),
{
    match (s, n) {
        (Val::String(t), Val::I128(m)) => {
            let len = t.as_str().unicode_len();
            if 0 <= m && m <= len as i128 {
                let sub = t.as_str().substring_char(m as usize, len);
                Ok(Val::String(sub.to_owned()))
            } else {
                Ok(Val::String(String::new()))
            }
        },
        _ => Err(type_error("string_drop")),
    }
}

/// Take the first `n` characters of a string; taking more than the length
/// leaves the string unchanged.
pub fn string_take(s: Val, n: Val, _solver: &mut Solver) -> (r: Result<Val, ExecError>)
    requires
        old(_solver).wf(),
    ensures
        string_take_post(s@, n@, r, *old(_solver), *final(_solver)),
{
    match (s, n) {
        (Val::String(t), Val::I128(m)) => {
            let len = t.as_str().unicode_len();
            if 0 <= m && m <= len as i128 {
                let sub = t.as_str().substring_char(0, m as usize);
                Ok(Val::String(sub.to_owned()))
            } else {
                Ok(Val::String(t))
            }
        },
        _ => Err(type_error("string_take")),
    }
}

/// Render a bit vector as text, or name a symbolic handle.
pub fn string_of_bits(bv: Val, _solver: &mut Solver) -> (r: Result<Val, ExecError>)
    requires
        old(_solver).wf(),
        abs_wf(bv@),
    ensures
        string_of_bits_post(bv@, r, *old(_solver), *final(_solver)),
{
    match bv {
        Val::Bits(b) => Ok(Val::String(crate::strings::format_bits(b))),
        Val::Symbolic(s) => {
            let mut out = String::new();
            out.append("v");
            let digits = dec_string_u32(s);
            out.append(digits.as_str());
            Ok(Val::String(out))
        },
        _ => Err(type_error("string_of_bits")),
    }
}

/// Render the signed value of a bit vector in decimal, or name a symbolic
/// handle.
pub fn decimal_string_of_bits(bv: Val, _solver: &mut Solver) -> (r: Result<Val, ExecError>)
    requires
        old(_solver).wf(),
        abs_wf(bv@),
    ensures
        decimal_string_of_bits_post(bv@, r, *old(_solver), *final(_solver)),
{
    match bv {
        Val::Bits(b) => {
            proof {
                crate::primop::lemma_signed_fits(b);
            }
            Ok(Val::String(dec_string_i128(b.signed())))
        },
        Val::Symbolic(s) => {
            let mut out = String::new();
            out.append("v");
            let digits = dec_string_u32(s);
            out.append(digits.as_str());
            Ok(Val::String(out))
        },
        _ => Err(type_error("decimal_string_of_bits")),
    }
}

/// Render an integer in decimal, or name a symbolic handle.
pub fn string_of_int(n: Val, _solver: &mut Solver) -> (r: Result<Val, ExecError>)
    requires
        old(_solver).wf(),
    ensures
        string_of_int_post(n@, r, *old(_solver), *final(_solver)),
{
    match n {
        Val::I128(x) => Ok(Val::String(dec_string_i128(x))),
        Val::Symbolic(s) => {
            let mut out = String::new();
            out.append("v");
            let digits = dec_string_u32(s);
            out.append(digits.as_str());
            Ok(Val::String(out))
        },
        _ => Err(type_error("string_of_int")),
    }
}

/// The output primops are silent: each consumes its operands and returns
/// unit, leaving the solver untouched.
pub fn putchar(_c: Val, _solver: &mut Solver) -> (r: Result<Val, ExecError>)
    requires
        old(_solver).wf(),
    ensures
        putchar_post(_c@, r, *old(_solver), *final(_solver)),
{
    Ok(Val::Unit)
}

/// See [`putchar`]: printing is suppressed.
pub fn print(_message: Val, _solver: &mut Solver) -> (r: Result<Val, ExecError>)
    requires
        old(_solver).wf(),
    ensures
        print_post(_message@, r, *old(_solver), *final(_solver)),
{
    Ok(Val::Unit)
}

/// See [`putchar`]: printing is suppressed.
pub fn prerr(_message: Val, _solver: &mut Solver) -> (r: Result<Val, ExecError>)
    requires
        old(_solver).wf(),
    ensures
        prerr_post(_message@, r, *old(_solver), *final(_solver)),
{
    Ok(Val::Unit)
}

/// See [`putchar`]: printing is suppressed.
pub fn print_string(_prefix: Val, _message: Val, _solver: &mut Solver) -> (r: Result<
    Val,
    ExecError,
>)
    requires
        old(_solver).wf(),
    ensures
        print_string_post(_prefix@, _message@, r, *old(_solver), *final(_solver)),
{
    Ok(Val::Unit)
}

/// See [`putchar`]: printing is suppressed.
pub fn prerr_string(_prefix: Val, _message: Val, _solver: &mut Solver) -> (r: Result<
    Val,
    ExecError,
>)
    requires
        old(_solver).wf(),
    ensures
        prerr_string_post(_prefix@, _message@, r, *old(_solver), *final(_solver)),
{
    Ok(Val::Unit)
}

/// See [`putchar`]: printing is suppressed.
pub fn print_int(_prefix: Val, _n: Val, _solver: &mut Solver) -> (r: Result<Val, ExecError>)
    requires
        old(_solver).wf(),
    ensures
        print_int_post(_prefix@, _n@, r, *old(_solver), *final(_solver)),
{
    Ok(Val::Unit)
}

/// See [`putchar`]: printing is suppressed.
pub fn prerr_int(_prefix: Val, _n: Val, _solver: &mut Solver) -> (r: Result<Val, ExecError>)
    requires
        old(_solver).wf(),
    ensures
        prerr_int_post(_prefix@, _n@, r, *old(_solver), *final(_solver)),
{
    Ok(Val::Unit)
}

/// See [`putchar`]: printing is suppressed.
pub fn print_endline(_message: Val, _solver: &mut Solver) -> (r: Result<Val, ExecError>)
    requires
        old(_solver).wf(),
    ensures
        print_endline_post(_message@, r, *old(_solver), *final(_solver)),
{
    Ok(Val::Unit)
}

/// See [`putchar`]: printing is suppressed.
pub fn prerr_endline(_message: Val, _solver: &mut Solver) -> (r: Result<Val, ExecError>)
    requires
        old(_solver).wf(),
    ensures
        prerr_endline_post(_message@, r, *old(_solver), *final(_solver)),
{
    Ok(Val::Unit)
}

/// See [`putchar`]: printing is suppressed.
pub fn print_bits(_message: Val, _bits: Val, _solver: &mut Solver) -> (r: Result<Val, ExecError>)
    requires
        old(_solver).wf(),
    ensures
        print_bits_post(_message@, _bits@, r, *old(_solver), *final(_solver)),
{
    Ok(Val::Unit)
}

/// See [`putchar`]: printing is suppressed.
pub fn prerr_bits(_message: Val, _bits: Val, _solver: &mut Solver) -> (r: Result<Val, ExecError>)
    requires
        old(_solver).wf(),
    ensures
        prerr_bits_post(_message@, _bits@, r, *old(_solver), *final(_solver)),
{
    Ok(Val::Unit)
}

/// An unconstrained bit vector of a concrete size.
pub fn undefined_bitvector(sz: Val, solver: &mut Solver) -> (r: Result<Val, ExecError>)
    requires
        old(solver).wf(),
        old(solver).next_sym() < u32::MAX,
    ensures
        undefined_bitvector_post(sz@, r, *old(solver), *final(solver)),
{
    match sz {
        Val::I128(n) => {
            if 0 <= n && n <= u32::MAX as i128 {
                Ok(declare_result(solver, SmtTy::BitVec(n as u32)))
            } else {
                Err(type_error("undefined_bitvector"))
            }
        },
        _ => Err(type_error("undefined_bitvector")),
    }
}

/// An unconstrained boolean.
pub fn undefined_bool(_x: Val, solver: &mut Solver) -> (r: Result<Val, ExecError>)
    requires
        old(solver).wf(),
        old(solver).next_sym() < u32::MAX,
    ensures
        undefined_bool_post(_x@, r, *old(solver), *final(solver)),
{
    Ok(declare_result(solver, SmtTy::Bool))
}

/// An unconstrained integer.
pub fn undefined_int(_x: Val, solver: &mut Solver) -> (r: Result<Val, ExecError>)
    requires
        old(solver).wf(),
        old(solver).next_sym() < u32::MAX,
    ensures
        undefined_int_post(_x@, r, *old(solver), *final(solver)),
{
    Ok(declare_result(solver, SmtTy::BitVec(128)))
}

/// An unconstrained natural number: a 128-bit integer asserted to be at
/// least zero.
pub fn undefined_nat(_x: Val, solver: &mut Solver) -> (r: Result<Val, ExecError>)
    requires
        old(solver).wf(),
        old(solver).next_sym() < u32::MAX,
    ensures
        undefined_nat_post(_x@, r, *old(solver), *final(solver)),
{
    let ghost s0 = *solver;
    let sym = solver.fresh();
    solver.add(Def::DeclareConst(sym, SmtTy::BitVec(128)));
    let ghost s1 = *solver;
    solver.add(
        Def::Assert(
            Exp::Bvsge(Box::new(Exp::Var(sym)), Box::new(smt_i128(0))),
        ),
    );
    proof {
        assert(solver.trace().subrange(0, s0.trace().len() as int) =~= s0.trace());
        assert(s0.trace().is_prefix_of(solver.trace()));
    }
    Ok(Val::Symbolic(sym))
}

/// An unconstrained integer between two bounds.
pub fn undefined_range(lo: Val, hi: Val, solver: &mut Solver) -> (r: Result<Val, ExecError>)
    requires
        old(solver).wf(),
        old(solver).next_sym() < u32::MAX,
    ensures
        undefined_range_post(lo@, hi@, r, *old(solver), *final(solver)),
{
    let lo_exp = match smt_value(&lo) {
        Ok(e) => e,
        Err(e) => {
            return Err(e);
        },
    };
    let hi_exp = match smt_value(&hi) {
        Ok(e) => e,
        Err(e) => {
            return Err(e);
        },
    };
    let sym = solver.fresh();
    solver.add(Def::DeclareConst(sym, SmtTy::BitVec(128)));
    solver.add(Def::Assert(Exp::Bvsle(Box::new(lo_exp), Box::new(Exp::Var(sym)))));
    solver.add(Def::Assert(Exp::Bvsle(Box::new(Exp::Var(sym)), Box::new(hi_exp))));
    Ok(Val::Symbolic(sym))
}

/// The unit value is its own undefined value.
pub fn undefined_unit(_x: Val, _solver: &mut Solver) -> (r: Result<Val, ExecError>)
    requires
        old(_solver).wf(),
    ensures
        undefined_unit_post(_x@, r, *old(_solver), *final(_solver)),
{
    Ok(Val::Unit)
}

/// A vector of `len` copies of an element; the length must be concrete.
pub fn undefined_vector(len: Val, elem: Val, _solver: &mut Solver) -> (r: Result<Val, ExecError>)
    requires
        old(_solver).wf(),
    ensures
        undefined_vector_post(len@, elem@, r, *old(_solver), *final(_solver)),
{
    match len {
        Val::I128(n) => {
            if 0 <= n && n <= usize::MAX as i128 {
                let count = n as usize;
                let mut items: Vec<Val> = Vec::new();
                let mut k: usize = 0;
                while k < count
                    invariant
                        k <= count,
                        items@.len() == k as int,
                        forall|i: int| 0 <= i < k ==> items@[i]@ == elem@,
                    decreases count - k,
                {
                    items.push(clone_val(&elem));
                    k += 1;
                }
                proof {
                    lemma_vals_view_len(items@);
                    assert forall|i: int| 0 <= i < n implies vals_view(items@)[i] == elem@ by {
                        lemma_vals_view_index(items@, i);
                    }
                }
                Ok(Val::Vector(items))
            } else {
                Err(ExecError::Overflow)
            }
        },
        _ => Err(ExecError::SymbolicLength("undefined_vector".to_owned())),
    }
}

/// The single bit one when the condition holds, else zero.
pub fn one_if(condition: Val, solver: &mut Solver) -> (r: Result<Val, ExecError>)
    requires
        old(solver).wf(),
        old(solver).next_sym() < u32::MAX,
    ensures
        one_if_post(condition@, r, *old(solver), *final(solver)),
{
    match condition {
        Val::Bool(true) => Ok(Val::Bits(Sbits::bit_one())),
        Val::Bool(false) => Ok(Val::Bits(Sbits::bit_zero())),
        Val::Symbolic(v) => Ok(
            define_result(
                solver,
                Exp::Ite(
                    Box::new(Exp::Var(v)),
                    Box::new(smt_sbits(Sbits::bit_one())),
                    Box::new(smt_sbits(Sbits::bit_zero())),
                ),
            ),
        ),
        _ => Err(type_error("one_if")),
    }
}

/// The single bit zero when the condition holds, else one.
pub fn zero_if(condition: Val, solver: &mut Solver) -> (r: Result<Val, ExecError>)
    requires
        old(solver).wf(),
        old(solver).next_sym() < u32::MAX,
    ensures
        zero_if_post(condition@, r, *old(solver), *final(solver)),
{
    match condition {
        Val::Bool(true) => Ok(Val::Bits(Sbits::bit_zero())),
        Val::Bool(false) => Ok(Val::Bits(Sbits::bit_one())),
        Val::Symbolic(v) => Ok(
            define_result(
                solver,
                Exp::Ite(
                    Box::new(Exp::Var(v)),
                    Box::new(smt_sbits(Sbits::bit_zero())),
                    Box::new(smt_sbits(Sbits::bit_one())),
                ),
            ),
        ),
        _ => Err(type_error("zero_if")),
    }
}

/// Cons an element onto a list; consing onto poison begins a fresh list.
pub fn cons(x: Val, xs: Val, _solver: &mut Solver) -> (r: Result<Val, ExecError>)
    requires
        old(_solver).wf(),
    ensures
        cons_post(x@, xs@, r, *old(_solver), *final(_solver)),
{
    match xs {
        Val::Poison => {
            let mut items: Vec<Val> = Vec::new();
            items.push(x);
            proof {
                lemma_vals_view_len(items@);
                lemma_vals_view_index(items@, 0);
            }
            Ok(Val::List(items))
        },
        Val::List(mut items) => {
            let ghost before = items@;
            items.push(x);
            proof {
                lemma_vals_view_len(items@);
                lemma_vals_view_len(before);
                assert forall|i: int| 0 <= i < items@.len() implies vals_view(items@)[i]
                    == vals_view(before).push(x@)[i] by {
                    lemma_vals_view_index(items@, i);
                    if i < before.len() {
                        lemma_vals_view_index(before, i);
                        assert(items@[i] == before[i]);
                    }
                }
                assert(vals_view(items@) =~= vals_view(before).push(x@));
            }
            Ok(Val::List(items))
        },
        _ => Err(type_error("cons")),
    }
}

/// Pass a value through unchanged; the executor uses this to force case
/// splits, which needs no work here.
pub fn monomorphize(val: Val, _solver: &mut Solver) -> (r: Result<Val, ExecError>)
    requires
        old(_solver).wf(),
    ensures
        monomorphize_post(val@, r, *old(_solver), *final(_solver)),
{
    Ok(val)
}

/// Advance the solver's cycle counter.
pub fn cycle_count(_x: Val, solver: &mut Solver) -> (r: Result<Val, ExecError>)
    requires
        old(solver).wf(),
        old(solver).cycles() < i128::MAX,
    ensures
        cycle_count_post(_x@, r, *old(solver), *final(solver)),
{
    solver.cycle_count();
    Ok(Val::Unit)
}

/// Read the solver's cycle counter.
pub fn get_cycle_count(_x: Val, solver: &mut Solver) -> (r: Result<Val, ExecError>)
    requires
        old(solver).wf(),
    ensures
        get_cycle_count_post(_x@, r, *old(solver), *final(solver)),
{
    Ok(Val::I128(solver.get_cycle_count()))
}

/// The verbosity bit vector: always all zeros here.
pub fn get_verbosity(_x: Val, _solver: &mut Solver) -> (r: Result<Val, ExecError>)
    requires
        old(_solver).wf(),
    ensures
        get_verbosity_post(_x@, r, *old(_solver), *final(_solver)),
{
    Ok(Val::Bits(Sbits::zeros(64)))
}

/// Threads never start out asleep.
pub fn sleeping(_x: Val, _solver: &mut Solver) -> (r: Result<Val, ExecError>)
    requires
        old(_solver).wf(),
    ensures
        sleeping_post(_x@, r, *old(_solver), *final(_solver)),
{
    Ok(Val::Bool(false))
}

/// Publish a wakeup request event.
pub fn wakeup_request(_x: Val, solver: &mut Solver) -> (r: Result<Val, ExecError>)
    requires
        old(solver).wf(),
    ensures
        wakeup_request_post(_x@, r, *old(solver), *final(solver)),
{
    solver.add_event(Event::WakeupRequest);
    Ok(Val::Unit)
}

/// Publish a wakeup request for a sleep request, as the executor treats
/// both alike.
pub fn sleep_request(_x: Val, solver: &mut Solver) -> (r: Result<Val, ExecError>)
    requires
        old(solver).wf(),
    ensures
        sleep_request_post(_x@, r, *old(solver), *final(solver)),
{
    solver.add_event(Event::WakeupRequest);
    Ok(Val::Unit)
}

/// Publish an instruction-fetch event carrying the opcode.
pub fn instr_announce(opcode: Val, solver: &mut Solver) -> (r: Result<Val, ExecError>)
    requires
        old(solver).wf(),
    ensures
        instr_announce_post(opcode@, r, *old(solver), *final(solver)),
{
    solver.add_event(Event::Instr(opcode));
    Ok(Val::Unit)
}

/// Publish a branch event carrying the target address.
pub fn branch_announce(_ty: Val, target: Val, solver: &mut Solver) -> (r: Result<Val, ExecError>)
    requires
        old(solver).wf(),
    ensures
        branch_announce_post(_ty@, target@, r, *old(solver), *final(solver)),
{
    solver.add_event(Event::Branch { address: target });
    Ok(Val::Unit)
}

/// Publish a barrier event carrying the barrier kind.
pub fn barrier(barrier_kind: Val, solver: &mut Solver) -> (r: Result<Val, ExecError>)
    requires
        old(solver).wf(),
    ensures
        barrier_post(barrier_kind@, r, *old(solver), *final(solver)),
{
    solver.add_event(Event::Barrier { barrier_kind });
    Ok(Val::Unit)
}

/// The explicit bad-read primop.
pub fn bad_read(_x: Val, _solver: &mut Solver) -> (r: Result<Val, ExecError>)
    requires
        old(_solver).wf(),
    ensures
        bad_read_post(_x@, r, *old(_solver), *final(_solver)),
{
    Err(ExecError::BadRead("spec-defined bad read".to_owned()))
}

/// The explicit bad-write primop.
pub fn bad_write(_x: Val, _solver: &mut Solver) -> (r: Result<Val, ExecError>)
    requires
        old(_solver).wf(),
    ensures
        bad_write_post(_x@, r, *old(_solver), *final(_solver)),
{
    Err(ExecError::BadWrite("spec-defined bad write".to_owned()))
}

/// Mark a register reference with an annotation for the memory model.
pub fn mark_register(reg: Val, mark: Val, solver: &mut Solver) -> (r: Result<Val, ExecError>)
    requires
        old(solver).wf(),
    ensures
        mark_register_post(reg@, mark@, r, *old(solver), *final(solver)),
{
    match (reg, mark) {
        (Val::Ref(rr), Val::String(m)) => {
            let mut regs: Vec<u32> = Vec::new();
            regs.push(rr);
            proof {
                assert(regs@ =~= seq![rr]);
            }
            solver.add_event(Event::MarkReg { regs, mark: m });
            Ok(Val::Unit)
        },
        _ => Err(type_error("mark_register")),
    }
}

/// Mark a pair of register references with an annotation.
pub fn mark_register_pair_internal(r1: Val, r2: Val, mark: Val, solver: &mut Solver) -> (r: Result<
    Val,
    ExecError,
>)
    requires
        old(solver).wf(),
    ensures
        mark_register_pair_internal_post(r1@, r2@, mark@, r, *old(solver), *final(solver)),
{
    match (r1, r2, mark) {
        (Val::Ref(a), Val::Ref(b), Val::String(m)) => {
            let mut regs: Vec<u32> = Vec::new();
            regs.push(a);
            regs.push(b);
            proof {
                assert(regs@ =~= seq![a, b]);
            }
            solver.add_event(Event::MarkReg { regs, mark: m });
            Ok(Val::Unit)
        },
        _ => Err(type_error("mark_register_pair")),
    }
}


/// Whether a pair of branch values can be selected between: base values
/// become one selector definition; structs select field by field.
pub open spec fn ite_class(l: AbsVal, r: AbsVal) -> bool
    decreases l, 1int,
    via ite_class_decreases
{
    match (l, r) {
        (AbsVal::Struct(lf), AbsVal::Struct(rf)) => ite_fields_ok(lf, rf, 0),
        _ => is_smt_base(l) && is_smt_base(r),
    }
}

/// Whether every field of the first struct, from an index on, pairs with a
/// selectable field of the second.
pub open spec fn ite_fields_ok(lf: Seq<(u32, AbsVal)>, rf: Seq<(u32, AbsVal)>, k: int) -> bool
    decreases lf, lf.len() - k, 0int,
    via ite_fields_ok_decreases
{
    if k < 0 || k >= lf.len() {
        true
    } else {
        match crate::value::field_first(rf, lf[k].0) {
            Some(rv) => ite_class(lf[k].1, rv) && ite_fields_ok(lf, rf, k + 1),
            None => false,
        }
    }
}

#[via_fn]
proof fn ite_class_decreases(l: AbsVal, r: AbsVal) {
    match l {
        AbsVal::Struct(lf) => {
            assert(decreases_to!(l => l->Struct_0));
        },
        _ => {},
    }
}

#[via_fn]
proof fn ite_fields_ok_decreases(lf: Seq<(u32, AbsVal)>, rf: Seq<(u32, AbsVal)>, k: int) {
    if 0 <= k < lf.len() {
        assert(decreases_to!(lf => lf[k]));
        assert(decreases_to!(lf[k] => lf[k].1));
    }
}

/// The shape of a selection result: a fresh symbol for base branches, and
/// for struct branches a struct with the first branch's field names whose
/// every field is itself a selection result.
pub open spec fn ite_shape(l: AbsVal, r: AbsVal, o: AbsVal) -> bool
    decreases l, 1int,
    via ite_shape_decreases
{
    match (l, r) {
        (AbsVal::Struct(lf), AbsVal::Struct(rf)) => o matches AbsVal::Struct(of) && of.len()
            == lf.len() && forall|i: int|
            0 <= i < lf.len() ==> {
                &&& (#[trigger] of[i]).0 == lf[i].0
                &&& crate::value::field_first(rf, lf[i].0) matches Some(rv) && ite_shape(
                    lf[i].1,
                    rv,
                    of[i].1,
                )
            },
        _ => o is Symbolic,
    }
}

#[via_fn]
proof fn ite_shape_decreases(l: AbsVal, r: AbsVal, o: AbsVal) {
    match l {
        AbsVal::Struct(lf) => {
            assert forall|i: int| 0 <= i < lf.len() implies decreases_to!(l => lf[i].1) by {
                assert(decreases_to!(l => l->Struct_0));
                assert(decreases_to!(l->Struct_0 => l->Struct_0[i]));
                assert(decreases_to!(l->Struct_0[i] => l->Struct_0[i].1));
            }
        },
        _ => {},
    }
}

/// Selectable field pairs from every index make the fold true.
proof fn lemma_ite_fields_ok(lf: Seq<(u32, AbsVal)>, rf: Seq<(u32, AbsVal)>, k: int)
    requires
        forall|j: int|
            0 <= j < lf.len() ==> (crate::value::field_first(rf, (#[trigger] lf[j]).0) matches Some(
                rv,
            ) && ite_class(lf[j].1, rv)),
    ensures
        ite_fields_ok(lf, rf, k),
    decreases lf.len() - k,
{
    if 0 <= k < lf.len() {
        lemma_ite_fields_ok(lf, rf, k + 1);
    }
}

/// Build an if-then-else over two values: structs select field by field,
/// scalars become one defined selector constant.
pub fn build_ite(b: Sym, lhs: &Val, rhs: &Val, solver: &mut Solver) -> (r: Result<Val, ExecError>)
    requires
        old(solver).wf(),
        old(solver).next_sym() + 1 < u32::MAX,
    ensures
        final(solver).wf(),
        solver_evolves(*old(solver), *final(solver)),
        (is_smt_base(lhs@) && is_smt_base(rhs@)) ==> (r matches Ok(v) && defines_fresh(
            *old(solver),
            *final(solver),
            v,
        ) && (last_exp(*final(solver)) matches Exp::Ite(c, t, e) && (*c matches Exp::Var(s) && s
            == b) && is_smt_value(lhs@, *t) && is_smt_value(rhs@, *e))),
        !ite_class(lhs@, rhs@) ==> (r matches Err(e) && e is Type),
        r matches Ok(v) ==> ite_shape(lhs@, rhs@, v@),
        r matches Err(e) ==> e is Type,
    decreases *lhs, 1int,
{
    match (lhs, rhs) {
        (Val::Struct(lf), Val::Struct(rf)) => build_ite_struct(b, lhs, lf, rf, solver),
        _ => {
            let t = match smt_value(lhs) {
                Ok(e) => e,
                Err(e) => {
                    return Err(e);
                },
            };
            let e2 = match smt_value(rhs) {
                Ok(e) => e,
                Err(e) => {
                    return Err(e);
                },
            };
            Ok(
                define_result(
                    solver,
                    Exp::Ite(Box::new(Exp::Var(b)), Box::new(t), Box::new(e2)),
                ),
            )
        },
    }
}

/// The struct case of [`build_ite`]: a struct of per-field selectors.
#[verifier::loop_isolation(false)]
fn build_ite_struct(
    b: Sym,
    parent: &Val,
    lf: &Vec<(u32, Val)>,
    rf: &Vec<(u32, Val)>,
    solver: &mut Solver,
) -> (r: Result<Val, ExecError>)
    requires
        old(solver).wf(),
        old(solver).next_sym() + 1 < u32::MAX,
        *parent matches Val::Struct(f) && f == *lf,
    ensures
        final(solver).wf(),
        solver_evolves(*old(solver), *final(solver)),
        !ite_fields_ok(crate::value::fields_view(lf@), crate::value::fields_view(rf@), 0) ==> (
        r matches Err(e) && e is Type),
        r matches Ok(v) ==> ite_shape(
            AbsVal::Struct(crate::value::fields_view(lf@)),
            AbsVal::Struct(crate::value::fields_view(rf@)),
            v@,
        ),
        r matches Err(e) ==> e is Type,
    decreases *parent, 0int,
{
    proof {
        crate::value::lemma_fields_view_len(lf@);
        assert forall|i: int| 0 <= i < lf@.len() implies #[trigger] crate::value::fields_view(
            lf@,
        )[i] == (lf@[i].0, crate::value::val_view(lf@[i].1)) by {
            crate::value::lemma_fields_view_index(lf@, i);
        }
    }
    let ghost lfv = crate::value::fields_view(lf@);
    let ghost rfv = crate::value::fields_view(rf@);
    let mut out: Vec<(u32, Val)> = Vec::new();
    let mut k: usize = 0;
    while k < lf.len()
        invariant
            solver.wf(),
            *parent matches Val::Struct(f) && f == *lf,
            k <= lf@.len(),
            solver_evolves(*old(solver), *solver),
            out@.len() == k as int,
            forall|j: int|
                0 <= j < k ==> {
                    &&& (#[trigger] out@[j]).0 == lfv[j].0
                    &&& crate::value::field_first(rfv, lfv[j].0) matches Some(rv) && ite_class(
                        lfv[j].1,
                        rv,
                    ) && ite_shape(lfv[j].1, rv, crate::value::val_view(out@[j].1))
                },
        decreases lf@.len() - k,
    {
        if solver.remaining_symbols() < 2 {
            proof {
                if ite_fields_ok(lfv, rfv, 0) {
                }
            }
            return Err(type_error("ite"));
        }
        let name = lf[k].0;
        let rhs_v = match crate::value::struct_field(rf, name) {
            Some(v) => v,
            None => {
                proof {
                    crate::value::lemma_field_first_view(rf@, name);
                    lemma_ite_fields_bad(lfv, rfv, k as int);
                }
                return Err(type_error("ite"));
            },
        };
        proof {
            crate::value::lemma_field_first_view(rf@, name);
            assert(crate::value::field_first(rfv, lfv[k as int].0) == Some(
                crate::value::val_view(*rhs_v),
            ));
            let p = *parent;
            assert(decreases_to!(p => p->Struct_0));
            assert(decreases_to!(p->Struct_0 => p->Struct_0@));
            assert(decreases_to!(p->Struct_0@ => p->Struct_0@[k as int]));
        }
        let field = match build_ite(b, &lf[k].1, rhs_v, solver) {
            Ok(v) => v,
            Err(e) => {
                proof {
                    if ite_class(lfv[k as int].1, crate::value::val_view(*rhs_v)) {
                    } else {
                        lemma_ite_fields_bad(lfv, rfv, k as int);
                    }
                }
                return Err(e);
            },
        };
        let ghost before_out = out@;
        out.push((name, field));
        proof {
            assert(out@[k as int] == (name, field));
            assert forall|j: int| 0 <= j < k implies out@[j] == before_out[j] by {
            }
            if !ite_class(lfv[k as int].1, crate::value::val_view(*rhs_v)) {
                assert(false);
            }
        }
        k += 1;
    }
    proof {
        assert forall|j: int| 0 <= j < lfv.len() implies (crate::value::field_first(
            rfv,
            (#[trigger] lfv[j]).0,
        ) matches Some(rv) && ite_class(lfv[j].1, rv)) by {
            assert(out@[j].0 == lfv[j].0);
        }
        lemma_ite_fields_ok(lfv, rfv, 0);
        crate::value::lemma_fields_view_len(out@);
        assert forall|j: int| 0 <= j < out@.len() implies #[trigger] crate::value::fields_view(
            out@,
        )[j] == (out@[j].0, crate::value::val_view(out@[j].1)) by {
            crate::value::lemma_fields_view_index(out@, j);
        }
    }
    Ok(Val::Struct(out))
}

/// A missing or unselectable field refuses the fold from the start.
proof fn lemma_ite_fields_bad(lf: Seq<(u32, AbsVal)>, rf: Seq<(u32, AbsVal)>, k: int)
    requires
        0 <= k < lf.len(),
        match crate::value::field_first(rf, lf[k].0) {
            Some(rv) => !ite_class(lf[k].1, rv),
            None => true,
        },
    ensures
        !ite_fields_ok(lf, rf, 0),
{
    lemma_ite_fields_bad_from(lf, rf, 0, k);
}

/// A missing or unselectable field refuses the fold from any earlier index.
proof fn lemma_ite_fields_bad_from(lf: Seq<(u32, AbsVal)>, rf: Seq<(u32, AbsVal)>, j: int, k: int)
    requires
        0 <= j <= k < lf.len(),
        match crate::value::field_first(rf, lf[k].0) {
            Some(rv) => !ite_class(lf[k].1, rv),
            None => true,
        },
    ensures
        !ite_fields_ok(lf, rf, j),
    decreases k - j,
{
    if j < k {
        lemma_ite_fields_bad_from(lf, rf, j + 1, k);
    }
}

/// The if-then-else combinator over a possibly symbolic condition.
pub fn ite(args: Vec<Val>, solver: &mut Solver, _frame: &mut LocalFrame) -> (r: Result<
    Val,
    ExecError,
>)
    requires
        old(solver).wf(),
        old(solver).next_sym() + 1 < u32::MAX,
    ensures
        ite_post(args@, r, *old(solver), *final(solver)),
{
    if args.len() != 3 {
        return Err(type_error("ite"));
    }
    match &args[0] {
        Val::Symbolic(b) => build_ite(*b, &args[1], &args[2], solver),
        Val::Bool(true) => Ok(clone_val(&args[1])),
        Val::Bool(false) => Ok(clone_val(&args[2])),
        _ => Err(type_error("ite")),
    }
}

/// Choose one element of a list: a fresh selector symbol picks among the
/// elements, all of which must be base values.
#[verifier::loop_isolation(false)]
pub fn choice(xs: Val, solver: &mut Solver) -> (r: Result<Val, ExecError>)
    requires
        old(solver).wf(),
        old(solver).next_sym() + 2 < u32::MAX,
    ensures
        choice_post(xs@, r, *old(solver), *final(solver)),
{
    match xs {
        Val::List(items) => {
            proof {
                lemma_vals_view_len(items@);
            }
            if items.len() == 0 {
                return Err(type_error("internal_pick"));
            }
            let n = items.len();
            if n >= 0x1000000 {
                return Err(type_error("internal_pick"));
            }
            // the selector is just wide enough to index every element
            let mut sz: u32 = 0;
            while crate::bitvector::pow2_u64(sz) < (n as u64) + 1
                invariant
                    sz <= 24,
                decreases 24 - sz,
            {
                proof {
                    vstd::arithmetic::power2::lemma2_to64();
                    if sz >= 24 {
                        assert(vstd::arithmetic::power2::pow2(24) == 0x1000000);
                        assert(false);
                    }
                }
                sz = sz + 1;
            }
            let sym = solver.fresh();
            solver.add(Def::DeclareConst(sym, SmtTy::BitVec(sz)));
            let chain = match choice_chain(sym, 0, sz, &items, items.len() - 1) {
                Ok(e) => e,
                Err(e) => {
                    return Err(e);
                },
            };
            if solver.remaining_symbols() < 1 {
                return Err(type_error("internal_pick"));
            }
            Ok(define_result(solver, chain))
        },
        _ => Err(type_error("internal_pick")),
    }
}

/// The selector chain over the elements of a list, one nested selection
/// per element.
pub fn choice_chain(sym: Sym, n: u64, sz: u32, xs: &Vec<Val>, k: usize) -> (r: Result<
    Exp,
    ExecError,
>)
    requires
        k < xs@.len(),
        n + k < u64::MAX,
    decreases k,
{
    if k == 0 {
        smt_value(&xs[0])
    } else {
        let x = match smt_value(&xs[k]) {
            Ok(e) => e,
            Err(e) => {
                return Err(e);
            },
        };
        let rest = match choice_chain(sym, n + 1, sz, xs, k - 1) {
            Ok(e) => e,
            Err(e) => {
                return Err(e);
            },
        };
        Ok(
            Exp::Ite(
                Box::new(
                    Exp::Eq(Box::new(Exp::Var(sym)), Box::new(Exp::Bits64(n, sz))),
                ),
                Box::new(x),
                Box::new(rest),
            ),
        )
    }
}

/// Read the ELF entry point from the frame's let-bindings.
pub fn elf_entry(_args: Vec<Val>, _solver: &mut Solver, frame: &mut LocalFrame) -> (r: Result<
    Val,
    ExecError,
>)
    requires
        old(_solver).wf(),
    ensures
        elf_entry_post(_args@, r, *old(_solver), *final(_solver)),
{
    let name = frame.elf_entry_name;
    match frame.get_let(name) {
        Some(uval) => match uval {
            UVal::Init(value) => Ok(clone_val(value)),
            UVal::Uninit => Err(ExecError::NoElfEntry),
        },
        None => Err(ExecError::NoElfEntry),
    }
}

/// The real-number primops are deliberately unimplemented.
pub fn unimplemented(_args: Vec<Val>, _solver: &mut Solver, _frame: &mut LocalFrame) -> (r: Result<
    Val,
    ExecError,
>)
    requires
        old(_solver).wf(),
    ensures
        unimplemented_post(_args@, r, *old(_solver), *final(_solver)),
{
    Err(ExecError::Unimplemented)
}

/// The contract of [`eq_string`], as one predicate over the views of its
/// operands and the solver before and after.
pub open spec fn eq_string_post(lhs: AbsVal, rhs: AbsVal, r: Result<Val, ExecError>, pre: Solver, post: Solver) -> bool {
        &&& ({
        post.wf()
        })
        &&& ({
        solver_unchanged(pre, post)
        })
        &&& ({
        match (lhs, rhs) {
            (AbsVal::String(a), AbsVal::String(b)) => r matches Ok(v) && v@ == AbsVal::Bool(
                a == b,
            ),
            _ => r matches Err(e) && e is Type,
        }
        })
}

/// The contract of [`concat_str`], as one predicate over the views of its
/// operands and the solver before and after.
pub open spec fn concat_str_post(lhs: AbsVal, rhs: AbsVal, r: Result<Val, ExecError>, pre: Solver, post: Solver) -> bool {
        &&& ({
        post.wf()
        })
        &&& ({
        solver_unchanged(pre, post)
        })
        &&& ({
        match (lhs, rhs) {
            (AbsVal::String(a), AbsVal::String(b)) => r matches Ok(v) && v@ == AbsVal::String(
                a + b,
            ),
            _ => r matches Err(e) && e is Type,
        }
        })
}

/// The contract of [`hex_str`], as one predicate over the views of its
/// operands and the solver before and after.
pub open spec fn hex_str_post(n: AbsVal, r: Result<Val, ExecError>, pre: Solver, post: Solver) -> bool {
        &&& ({
        post.wf()
        })
        &&& ({
        solver_unchanged(pre, post)
        })
        &&& ({
        match n {
            AbsVal::I128(x) => r matches Ok(v) && v@ == AbsVal::String(
                crate::strings::hex_digits_i128(x),
            ),
            AbsVal::Symbolic(_) => r matches Ok(v) && v@ is String,
            _ => r matches Err(e) && e is Type,
        }
        })
}

/// The contract of [`dec_str`], as one predicate over the views of its
/// operands and the solver before and after.
pub open spec fn dec_str_post(n: AbsVal, r: Result<Val, ExecError>, pre: Solver, post: Solver) -> bool {
        &&& ({
        post.wf()
        })
        &&& ({
        solver_unchanged(pre, post)
        })
        &&& ({
        match n {
            AbsVal::I128(x) => r matches Ok(v) && v@ == AbsVal::String(
                crate::strings::dec_digits_i128(x),
            ),
            AbsVal::Symbolic(_) => r matches Ok(v) && v@ is String,
            _ => r matches Err(e) && e is Type,
        }
        })
}

/// The contract of [`undefined_string`], as one predicate over the views of its
/// operands and the solver before and after.
pub open spec fn undefined_string_post(_x: AbsVal, r: Result<Val, ExecError>, pre: Solver, post: Solver) -> bool {
        &&& ({
        post.wf()
        })
        &&& ({
        solver_unchanged(pre, post)
        })
        &&& ({
        r matches Ok(v) && v@ is Poison
        })
}

/// The contract of [`string_to_i128`], as one predicate over the views of its
/// operands and the solver before and after.
pub open spec fn string_to_i128_post(s: AbsVal, r: Result<Val, ExecError>, pre: Solver, post: Solver) -> bool {
        &&& ({
        post.wf()
        })
        &&& ({
        solver_unchanged(pre, post)
        })
        &&& ({
        match s {
            AbsVal::String(t) => match crate::strings::spec_parse_i128(t) {
                Some(x) => r matches Ok(v) && v@ == AbsVal::I128(x),
                None => r matches Err(e) && e is Overflow,
            },
            _ => r matches Err(e) && e is Type,
        }
        })
}

/// The contract of [`string_startswith`], as one predicate over the views of its
/// operands and the solver before and after.
pub open spec fn string_startswith_post(s: AbsVal, prefix: AbsVal, r: Result<Val, ExecError>, pre: Solver, post: Solver) -> bool {
        &&& ({
        post.wf()
        })
        &&& ({
        solver_unchanged(pre, post)
        })
        &&& ({
        match (s, prefix) {
            (AbsVal::String(a), AbsVal::String(p)) => r matches Ok(v) && v@ == AbsVal::Bool(
                p.len() <= a.len() && a.subrange(0, p.len() as int) == p,
            ),
            _ => r matches Err(e) && e is Type,
        }
        })
}

/// The contract of [`string_length`], as one predicate over the views of its
/// operands and the solver before and after.
pub open spec fn string_length_post(s: AbsVal, r: Result<Val, ExecError>, pre: Solver, post: Solver) -> bool {
        &&& ({
        post.wf()
        })
        &&& ({
        solver_unchanged(pre, post)
        })
        &&& ({
        match s {
            AbsVal::String(t) => r matches Ok(v) && v@ == AbsVal::I128(t.len() as i128),
            _ => r matches Err(e) && e is Type,
        }
        })
}

/// The contract of [`string_drop`], as one predicate over the views of its
/// operands and the solver before and after.
pub open spec fn string_drop_post(s: AbsVal, n: AbsVal, r: Result<Val, ExecError>, pre: Solver, post: Solver) -> bool {
        &&& ({
        post.wf()
        })
        &&& ({
        solver_unchanged(pre, post)
        })
        &&& ({
        match (s, n) {
            (AbsVal::String(t), AbsVal::I128(m)) => r matches Ok(v) && (v@ matches AbsVal::String(
                u,
            ) && (0 <= m <= t.len() ==> u == t.subrange(m as int, t.len() as int)) && (!(0 <= m
                <= t.len()) ==> u.len() == 0)),
            _ => r matches Err(e) && e is Type,
        }
        })
}

/// The contract of [`string_take`], as one predicate over the views of its
/// operands and the solver before and after.
pub open spec fn string_take_post(s: AbsVal, n: AbsVal, r: Result<Val, ExecError>, pre: Solver, post: Solver) -> bool {
        &&& ({
        post.wf()
        })
        &&& ({
        solver_unchanged(pre, post)
        })
        &&& ({
        match (s, n) {
            (AbsVal::String(t), AbsVal::I128(m)) => r matches Ok(v) && (v@ matches AbsVal::String(
                u,
            ) && (0 <= m <= t.len() ==> u == t.subrange(0, m as int)) && (!(0 <= m <= t.len())
                ==> u == t)),
            _ => r matches Err(e) && e is Type,
        }
        })
}

/// The contract of [`string_of_bits`], as one predicate over the views of its
/// operands and the solver before and after.
pub open spec fn string_of_bits_post(bv: AbsVal, r: Result<Val, ExecError>, pre: Solver, post: Solver) -> bool {
        &&& ({
        post.wf()
        })
        &&& ({
        solver_unchanged(pre, post)
        })
        &&& ({
        match bv {
            AbsVal::Bits(b) => r matches Ok(v) && v@ == AbsVal::String(
                crate::strings::bits_string(b),
            ),
            AbsVal::Symbolic(_) => r matches Ok(v) && v@ is String,
            _ => r matches Err(e) && e is Type,
        }
        })
}

/// The contract of [`decimal_string_of_bits`], as one predicate over the views of its
/// operands and the solver before and after.
pub open spec fn decimal_string_of_bits_post(bv: AbsVal, r: Result<Val, ExecError>, pre: Solver, post: Solver) -> bool {
        &&& ({
        post.wf()
        })
        &&& ({
        solver_unchanged(pre, post)
        })
        &&& ({
        match bv {
            AbsVal::Bits(b) => r matches Ok(v) && v@ == AbsVal::String(
                crate::strings::dec_digits_i128(b.signed_value() as i128),
            ),
            AbsVal::Symbolic(_) => r matches Ok(v) && v@ is String,
            _ => r matches Err(e) && e is Type,
        }
        })
}

/// The contract of [`string_of_int`], as one predicate over the views of its
/// operands and the solver before and after.
pub open spec fn string_of_int_post(n: AbsVal, r: Result<Val, ExecError>, pre: Solver, post: Solver) -> bool {
        &&& ({
        post.wf()
        })
        &&& ({
        solver_unchanged(pre, post)
        })
        &&& ({
        match n {
            AbsVal::I128(x) => r matches Ok(v) && v@ == AbsVal::String(
                crate::strings::dec_digits_i128(x),
            ),
            AbsVal::Symbolic(_) => r matches Ok(v) && v@ is String,
            _ => r matches Err(e) && e is Type,
        }
        })
}

/// The contract of [`putchar`], as one predicate over the views of its
/// operands and the solver before and after.
pub open spec fn putchar_post(_c: AbsVal, r: Result<Val, ExecError>, pre: Solver, post: Solver) -> bool {
        &&& ({
        post.wf()
        })
        &&& ({
        solver_unchanged(pre, post)
        })
        &&& ({
        r matches Ok(v) && v@ is Unit
        })
}

/// The contract of [`print`], as one predicate over the views of its
/// operands and the solver before and after.
pub open spec fn print_post(_message: AbsVal, r: Result<Val, ExecError>, pre: Solver, post: Solver) -> bool {
        &&& ({
        post.wf()
        })
        &&& ({
        solver_unchanged(pre, post)
        })
        &&& ({
        r matches Ok(v) && v@ is Unit
        })
}

/// The contract of [`prerr`], as one predicate over the views of its
/// operands and the solver before and after.
pub open spec fn prerr_post(_message: AbsVal, r: Result<Val, ExecError>, pre: Solver, post: Solver) -> bool {
        &&& ({
        post.wf()
        })
        &&& ({
        solver_unchanged(pre, post)
        })
        &&& ({
        r matches Ok(v) && v@ is Unit
        })
}

/// The contract of [`print_string`], as one predicate over the views of its
/// operands and the solver before and after.
pub open spec fn print_string_post(_prefix: AbsVal, _message: AbsVal, r: Result<Val, ExecError>, pre: Solver, post: Solver) -> bool {
        &&& ({
        post.wf()
        })
        &&& ({
        solver_unchanged(pre, post)
        })
        &&& ({
        r matches Ok(v) && v@ is Unit
        })
}

/// The contract of [`prerr_string`], as one predicate over the views of its
/// operands and the solver before and after.
pub open spec fn prerr_string_post(_prefix: AbsVal, _message: AbsVal, r: Result<Val, ExecError>, pre: Solver, post: Solver) -> bool {
        &&& ({
        post.wf()
        })
        &&& ({
        solver_unchanged(pre, post)
        })
        &&& ({
        r matches Ok(v) && v@ is Unit
        })
}

/// The contract of [`print_int`], as one predicate over the views of its
/// operands and the solver before and after.
pub open spec fn print_int_post(_prefix: AbsVal, _n: AbsVal, r: Result<Val, ExecError>, pre: Solver, post: Solver) -> bool {
        &&& ({
        post.wf()
        })
        &&& ({
        solver_unchanged(pre, post)
        })
        &&& ({
        r matches Ok(v) && v@ is Unit
        })
}

/// The contract of [`prerr_int`], as one predicate over the views of its
/// operands and the solver before and after.
pub open spec fn prerr_int_post(_prefix: AbsVal, _n: AbsVal, r: Result<Val, ExecError>, pre: Solver, post: Solver) -> bool {
        &&& ({
        post.wf()
        })
        &&& ({
        solver_unchanged(pre, post)
        })
        &&& ({
        r matches Ok(v) && v@ is Unit
        })
}

/// The contract of [`print_endline`], as one predicate over the views of its
/// operands and the solver before and after.
pub open spec fn print_endline_post(_message: AbsVal, r: Result<Val, ExecError>, pre: Solver, post: Solver) -> bool {
        &&& ({
        post.wf()
        })
        &&& ({
        solver_unchanged(pre, post)
        })
        &&& ({
        r matches Ok(v) && v@ is Unit
        })
}

/// The contract of [`prerr_endline`], as one predicate over the views of its
/// operands and the solver before and after.
pub open spec fn prerr_endline_post(_message: AbsVal, r: Result<Val, ExecError>, pre: Solver, post: Solver) -> bool {
        &&& ({
        post.wf()
        })
        &&& ({
        solver_unchanged(pre, post)
        })
        &&& ({
        r matches Ok(v) && v@ is Unit
        })
}

/// The contract of [`print_bits`], as one predicate over the views of its
/// operands and the solver before and after.
pub open spec fn print_bits_post(_message: AbsVal, _bits: AbsVal, r: Result<Val, ExecError>, pre: Solver, post: Solver) -> bool {
        &&& ({
        post.wf()
        })
        &&& ({
        solver_unchanged(pre, post)
        })
        &&& ({
        r matches Ok(v) && v@ is Unit
        })
}

/// The contract of [`prerr_bits`], as one predicate over the views of its
/// operands and the solver before and after.
pub open spec fn prerr_bits_post(_message: AbsVal, _bits: AbsVal, r: Result<Val, ExecError>, pre: Solver, post: Solver) -> bool {
        &&& ({
        post.wf()
        })
        &&& ({
        solver_unchanged(pre, post)
        })
        &&& ({
        r matches Ok(v) && v@ is Unit
        })
}

/// The contract of [`undefined_bitvector`], as one predicate over the views of its
/// operands and the solver before and after.
pub open spec fn undefined_bitvector_post(sz: AbsVal, r: Result<Val, ExecError>, pre: Solver, post: Solver) -> bool {
        &&& ({
        post.wf()
        })
        &&& ({
        match sz {
            AbsVal::I128(n) => if 0 <= n <= u32::MAX {
                r matches Ok(v) && declares_fresh(
                    pre,
                    post,
                    v,
                    SmtTy::BitVec(n as u32),
                )
            } else {
                r matches Err(e) && e is Type && solver_unchanged(pre, post)
            },
            _ => r matches Err(e) && e is Type && solver_unchanged(pre, post),
        }
        })
}

/// The contract of [`undefined_bool`], as one predicate over the views of its
/// operands and the solver before and after.
pub open spec fn undefined_bool_post(_x: AbsVal, r: Result<Val, ExecError>, pre: Solver, post: Solver) -> bool {
        &&& ({
        post.wf()
        })
        &&& ({
        r matches Ok(v) && declares_fresh(pre, post, v, SmtTy::Bool)
        })
}

/// The contract of [`undefined_int`], as one predicate over the views of its
/// operands and the solver before and after.
pub open spec fn undefined_int_post(_x: AbsVal, r: Result<Val, ExecError>, pre: Solver, post: Solver) -> bool {
        &&& ({
        post.wf()
        })
        &&& ({
        r matches Ok(v) && declares_fresh(pre, post, v, SmtTy::BitVec(128))
        })
}

/// The contract of [`undefined_nat`], as one predicate over the views of its
/// operands and the solver before and after.
pub open spec fn undefined_nat_post(_x: AbsVal, r: Result<Val, ExecError>, pre: Solver, post: Solver) -> bool {
        &&& ({
        post.wf()
        })
        &&& ({
        solver_evolves(pre, post)
        })
        &&& ({
        r matches Ok(v) && (v matches Val::Symbolic(s) && s == pre.next_sym())
        })
        &&& ({
        post.next_sym() == pre.next_sym() + 1
        })
        &&& ({
        post.trace().len() == pre.trace().len() + 2
        })
}

/// The contract of [`undefined_range`], as one predicate over the views of its
/// operands and the solver before and after.
pub open spec fn undefined_range_post(lo: AbsVal, hi: AbsVal, r: Result<Val, ExecError>, pre: Solver, post: Solver) -> bool {
        &&& ({
        post.wf()
        })
        &&& ({
        (is_smt_base(lo) && is_smt_base(hi)) ==> (r matches Ok(v) && (v matches Val::Symbolic(s)
            && s == pre.next_sym()) && post.next_sym() == pre.next_sym()
            + 1 && post.trace().len() == pre.trace().len() + 3)
        })
        &&& ({
        !(is_smt_base(lo) && is_smt_base(hi)) ==> (r matches Err(e) && e is Type)
        })
}

/// The contract of [`undefined_unit`], as one predicate over the views of its
/// operands and the solver before and after.
pub open spec fn undefined_unit_post(_x: AbsVal, r: Result<Val, ExecError>, pre: Solver, post: Solver) -> bool {
        &&& ({
        post.wf()
        })
        &&& ({
        solver_unchanged(pre, post)
        })
        &&& ({
        r matches Ok(v) && v@ is Unit
        })
}

/// The contract of [`undefined_vector`], as one predicate over the views of its
/// operands and the solver before and after.
pub open spec fn undefined_vector_post(len: AbsVal, elem: AbsVal, r: Result<Val, ExecError>, pre: Solver, post: Solver) -> bool {
        &&& ({
        post.wf()
        })
        &&& ({
        solver_unchanged(pre, post)
        })
        &&& ({
        match len {
            AbsVal::I128(n) => if 0 <= n <= usize::MAX {
                r matches Ok(v) && (v@ matches AbsVal::Vector(items) && items.len() == n && forall|
                    i: int,
                |
                    0 <= i < n ==> items[i] == elem)
            } else {
                r matches Err(e) && e is Overflow
            },
            AbsVal::Symbolic(_) => r matches Err(e) && e is SymbolicLength,
            _ => r matches Err(e) && e is SymbolicLength,
        }
        })
}

/// The contract of [`one_if`], as one predicate over the views of its
/// operands and the solver before and after.
pub open spec fn one_if_post(condition: AbsVal, r: Result<Val, ExecError>, pre: Solver, post: Solver) -> bool {
        &&& ({
        post.wf()
        })
        &&& ({
        match condition {
            AbsVal::Bool(b) => r matches Ok(v) && (v@ matches AbsVal::Bits(c) && c.wf()
                && c.width() == 1 && c.value() == if b {
                1int
            } else {
                0int
            }) && solver_unchanged(pre, post),
            AbsVal::Symbolic(s) => r matches Ok(v) && defines_fresh(pre, post, v),
            _ => r matches Err(e) && e is Type && solver_unchanged(pre, post),
        }
        })
}

/// The contract of [`zero_if`], as one predicate over the views of its
/// operands and the solver before and after.
pub open spec fn zero_if_post(condition: AbsVal, r: Result<Val, ExecError>, pre: Solver, post: Solver) -> bool {
        &&& ({
        post.wf()
        })
        &&& ({
        match condition {
            AbsVal::Bool(b) => r matches Ok(v) && (v@ matches AbsVal::Bits(c) && c.wf()
                && c.width() == 1 && c.value() == if b {
                0int
            } else {
                1int
            }) && solver_unchanged(pre, post),
            AbsVal::Symbolic(s) => r matches Ok(v) && defines_fresh(pre, post, v),
            _ => r matches Err(e) && e is Type && solver_unchanged(pre, post),
        }
        })
}

/// The contract of [`cons`], as one predicate over the views of its
/// operands and the solver before and after.
pub open spec fn cons_post(x: AbsVal, xs: AbsVal, r: Result<Val, ExecError>, pre: Solver, post: Solver) -> bool {
        &&& ({
        post.wf()
        })
        &&& ({
        solver_unchanged(pre, post)
        })
        &&& ({
        match xs {
            AbsVal::Poison => r matches Ok(v) && (v@ matches AbsVal::List(items) && items.len()
                == 1 && items[0] == x),
            AbsVal::List(items) => r matches Ok(v) && (v@ matches AbsVal::List(out) && out
                == items.push(x)),
            _ => r matches Err(e) && e is Type,
        }
        })
}

/// The contract of [`monomorphize`], as one predicate over the views of its
/// operands and the solver before and after.
pub open spec fn monomorphize_post(val: AbsVal, r: Result<Val, ExecError>, pre: Solver, post: Solver) -> bool {
        &&& ({
        post.wf()
        })
        &&& ({
        solver_unchanged(pre, post)
        })
        &&& ({
        r matches Ok(v) && v@ == val
        })
}

/// The contract of [`cycle_count`], as one predicate over the views of its
/// operands and the solver before and after.
pub open spec fn cycle_count_post(_x: AbsVal, r: Result<Val, ExecError>, pre: Solver, post: Solver) -> bool {
        &&& ({
        post.wf()
        })
        &&& ({
        post.cycles() == pre.cycles() + 1
        })
        &&& ({
        post.trace() == pre.trace()
        })
        &&& ({
        post.events() == pre.events()
        })
        &&& ({
        post.next_sym() == pre.next_sym()
        })
        &&& ({
        r matches Ok(v) && v@ is Unit
        })
}

/// The contract of [`get_cycle_count`], as one predicate over the views of its
/// operands and the solver before and after.
pub open spec fn get_cycle_count_post(_x: AbsVal, r: Result<Val, ExecError>, pre: Solver, post: Solver) -> bool {
        &&& ({
        post.wf()
        })
        &&& ({
        solver_unchanged(pre, post)
        })
        &&& ({
        r matches Ok(v) && v@ == AbsVal::I128(pre.cycles() as i128)
        })
}

/// The contract of [`get_verbosity`], as one predicate over the views of its
/// operands and the solver before and after.
pub open spec fn get_verbosity_post(_x: AbsVal, r: Result<Val, ExecError>, pre: Solver, post: Solver) -> bool {
        &&& ({
        post.wf()
        })
        &&& ({
        solver_unchanged(pre, post)
        })
        &&& ({
        r matches Ok(v) && (v@ matches AbsVal::Bits(b) && b.width() == 64 && b.value() == 0)
        })
}

/// The contract of [`sleeping`], as one predicate over the views of its
/// operands and the solver before and after.
pub open spec fn sleeping_post(_x: AbsVal, r: Result<Val, ExecError>, pre: Solver, post: Solver) -> bool {
        &&& ({
        post.wf()
        })
        &&& ({
        solver_unchanged(pre, post)
        })
        &&& ({
        r matches Ok(v) && v@ == AbsVal::Bool(false)
        })
}

/// The contract of [`wakeup_request`], as one predicate over the views of its
/// operands and the solver before and after.
pub open spec fn wakeup_request_post(_x: AbsVal, r: Result<Val, ExecError>, pre: Solver, post: Solver) -> bool {
        &&& ({
        post.wf()
        })
        &&& ({
        post.events() == pre.events().push(Event::WakeupRequest)
        })
        &&& ({
        post.trace() == pre.trace()
        })
        &&& ({
        post.next_sym() == pre.next_sym()
        })
        &&& ({
        post.cycles() == pre.cycles()
        })
        &&& ({
        r matches Ok(v) && v@ is Unit
        })
}

/// The contract of [`sleep_request`], as one predicate over the views of its
/// operands and the solver before and after.
pub open spec fn sleep_request_post(_x: AbsVal, r: Result<Val, ExecError>, pre: Solver, post: Solver) -> bool {
        &&& ({
        post.wf()
        })
        &&& ({
        post.events() == pre.events().push(Event::WakeupRequest)
        })
        &&& ({
        post.trace() == pre.trace()
        })
        &&& ({
        post.next_sym() == pre.next_sym()
        })
        &&& ({
        post.cycles() == pre.cycles()
        })
        &&& ({
        r matches Ok(v) && v@ is Unit
        })
}

/// The contract of [`instr_announce`], as one predicate over the views of its
/// operands and the solver before and after.
pub open spec fn instr_announce_post(opcode: AbsVal, r: Result<Val, ExecError>, pre: Solver, post: Solver) -> bool {
        &&& ({
        post.wf()
        })
        &&& ({
        post.events().len() == pre.events().len() + 1
        })
        &&& ({
        post.events().last() matches Event::Instr(op) && op@ == opcode
        })
        &&& ({
        post.trace() == pre.trace()
        })
        &&& ({
        post.next_sym() == pre.next_sym()
        })
        &&& ({
        r matches Ok(v) && v@ is Unit
        })
}

/// The contract of [`branch_announce`], as one predicate over the views of its
/// operands and the solver before and after.
pub open spec fn branch_announce_post(_ty: AbsVal, target: AbsVal, r: Result<Val, ExecError>, pre: Solver, post: Solver) -> bool {
        &&& ({
        post.wf()
        })
        &&& ({
        post.events().len() == pre.events().len() + 1
        })
        &&& ({
        post.events().last() matches Event::Branch { address } && address@ == target
        })
        &&& ({
        post.trace() == pre.trace()
        })
        &&& ({
        post.next_sym() == pre.next_sym()
        })
        &&& ({
        r matches Ok(v) && v@ is Unit
        })
}

/// The contract of [`barrier`], as one predicate over the views of its
/// operands and the solver before and after.
pub open spec fn barrier_post(barrier_kind: AbsVal, r: Result<Val, ExecError>, pre: Solver, post: Solver) -> bool {
        &&& ({
        post.wf()
        })
        &&& ({
        post.events().len() == pre.events().len() + 1
        })
        &&& ({
        post.events().last() matches Event::Barrier { barrier_kind: k } && k@
            == barrier_kind
        })
        &&& ({
        post.trace() == pre.trace()
        })
        &&& ({
        post.next_sym() == pre.next_sym()
        })
        &&& ({
        r matches Ok(v) && v@ is Unit
        })
}

/// The contract of [`bad_read`], as one predicate over the views of its
/// operands and the solver before and after.
pub open spec fn bad_read_post(_x: AbsVal, r: Result<Val, ExecError>, pre: Solver, post: Solver) -> bool {
        &&& ({
        post.wf()
        })
        &&& ({
        solver_unchanged(pre, post)
        })
        &&& ({
        r matches Err(e) && e is BadRead
        })
}

/// The contract of [`bad_write`], as one predicate over the views of its
/// operands and the solver before and after.
pub open spec fn bad_write_post(_x: AbsVal, r: Result<Val, ExecError>, pre: Solver, post: Solver) -> bool {
        &&& ({
        post.wf()
        })
        &&& ({
        solver_unchanged(pre, post)
        })
        &&& ({
        r matches Err(e) && e is BadWrite
        })
}

/// The contract of [`mark_register`], as one predicate over the views of its
/// operands and the solver before and after.
pub open spec fn mark_register_post(reg: AbsVal, mark: AbsVal, r: Result<Val, ExecError>, pre: Solver, post: Solver) -> bool {
        &&& ({
        post.wf()
        })
        &&& ({
        match (reg, mark) {
            (AbsVal::Ref(rr), AbsVal::String(m)) => r matches Ok(v) && v@ is Unit
                && post.events().len() == pre.events().len() + 1 && (post.events().last() matches Event::MarkReg { regs, mark: mk } && regs@ == seq![rr] && mk@
                == m),
            _ => r matches Err(e) && e is Type && solver_unchanged(pre, post),
        }
        })
        &&& ({
        post.trace() == pre.trace()
        })
        &&& ({
        post.next_sym() == pre.next_sym()
        })
}

/// The contract of [`mark_register_pair_internal`], as one predicate over the views of its
/// operands and the solver before and after.
pub open spec fn mark_register_pair_internal_post(r1: AbsVal, r2: AbsVal, mark: AbsVal, r: Result<Val, ExecError>, pre: Solver, post: Solver) -> bool {
        &&& ({
        post.wf()
        })
        &&& ({
        match (r1, r2, mark) {
            (AbsVal::Ref(a), AbsVal::Ref(b), AbsVal::String(m)) => r matches Ok(v) && v@ is Unit
                && post.events().len() == pre.events().len() + 1 && (post.events().last() matches Event::MarkReg { regs, mark: mk } && regs@ == seq![a, b]
                && mk@ == m),
            _ => r matches Err(e) && e is Type && solver_unchanged(pre, post),
        }
        })
        &&& ({
        post.trace() == pre.trace()
        })
        &&& ({
        post.next_sym() == pre.next_sym()
        })
}

/// The contract of [`choice`], as one predicate over the views of its
/// operands and the solver before and after.
pub open spec fn choice_post(xs: AbsVal, r: Result<Val, ExecError>, pre: Solver, post: Solver) -> bool {
        &&& ({
        post.wf()
        })
        &&& ({
        solver_evolves(pre, post)
        })
        &&& ({
        match xs {
            AbsVal::List(items) => if items.len() > 0 {
                r is Ok ==> (r matches Ok(v) && v@ is Symbolic)
            } else {
                r matches Err(e) && e is Type
            },
            _ => r matches Err(e) && e is Type && solver_unchanged(pre, post),
        }
        })
}

/// The contract of [`ite`], as one predicate over the views of its
/// operands and the solver before and after.
pub open spec fn ite_post(args: Seq<Val>, r: Result<Val, ExecError>, pre: Solver, post: Solver) -> bool {
        &&& ({
        post.wf()
        })
        &&& ({
        solver_evolves(pre, post)
        })
        &&& ({
        args.len() == 3 ==> match args[0]@ {
            AbsVal::Bool(c) => r matches Ok(v) && v@ == if c {
                args[1]@
            } else {
                args[2]@
            },
            AbsVal::Symbolic(b) => {
                &&& ((is_smt_base(args[1]@) && is_smt_base(args[2]@)) ==> (r matches Ok(v)
                    && defines_fresh(pre, post, v) && (last_exp(post) matches Exp::Ite(c, t, e)
                    && (*c matches Exp::Var(s) && s == b) && is_smt_value(args[1]@, *t)
                    && is_smt_value(args[2]@, *e))))
                &&& (!ite_class(args[1]@, args[2]@) ==> (r matches Err(err) && err is Type))
                &&& (r matches Ok(v) ==> ite_shape(args[1]@, args[2]@, v@))
                &&& (r matches Err(err) ==> err is Type)
            },
            _ => r matches Err(e) && e is Type,
        }
        })
        &&& ({
        args.len() != 3 ==> (r matches Err(e) && e is Type)
        })
}

/// The contract of [`elf_entry`], as one predicate over the views of its
/// operands and the solver before and after.
pub open spec fn elf_entry_post(_args: Seq<Val>, r: Result<Val, ExecError>, pre: Solver, post: Solver) -> bool {
        &&& ({
        post.wf()
        })
        &&& ({
        solver_unchanged(pre, post)
        })
        &&& ({
        r matches Err(e) ==> e is NoElfEntry
        })
}

/// The contract of [`unimplemented`], as one predicate over the views of its
/// operands and the solver before and after.
pub open spec fn unimplemented_post(_args: Seq<Val>, r: Result<Val, ExecError>, pre: Solver, post: Solver) -> bool {
        &&& ({
        post.wf()
        })
        &&& ({
        solver_unchanged(pre, post)
        })
        &&& ({
        r matches Err(e) && e is Unimplemented
        })
}

} // verus!
