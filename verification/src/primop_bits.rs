//! Primitive operations on bit vectors: lengths, extensions, slices,
//! shifts, concatenation and leading-zero counts.
//!
//! Concrete operands are computed with [`Sbits`]; a symbolic operand turns
//! the operation into one defined SMT constant. Length parameters must be
//! concrete: a symbolic length is an error.

use vstd::prelude::*;
use vstd::arithmetic::power2::pow2;
use crate::bitvector::{Sbits, MAX_WIDTH};
use crate::error::ExecError;
use crate::smt::{Exp, Solver, SmtTy, Def};
use crate::value::{Val, AbsVal, Sym, abs_wf};
use crate::primop::{type_error, define_result, is_i128_lit, declare_result, defines_fresh, declares_fresh, solver_unchanged, solver_evolves, last_exp, is_smt_value, is_sbits_lit, smt_sbits, smt_i128, smt_zeros, smt_ones, smt_value, smt_mask_lower};

verus! {

/// The length of a bit vector as an integer; the width of a symbolic bit
/// vector comes from the solver.
pub fn length(x: Val, solver: &mut Solver) -> (r: Result<Val, ExecError>)
    requires
        old(solver).wf(),
    ensures
        length_post(x@, r, *old(solver), *final(solver)),
{
    match x {
        Val::Symbolic(s) => match solver.length(s) {
            Some(len) => Ok(Val::I128(len as i128)),
            None => Err(type_error("length")),
        },
        Val::Bits(b) => Ok(Val::I128(b.len_i128())),
        _ => Err(type_error("length")),
    }
}

/// The width of a concrete or symbolic bit-vector value.
pub fn length_bits(bits: &Val, solver: &mut Solver) -> (r: Result<u32, ExecError>)
    requires
        old(solver).wf(),
    ensures
        final(solver).wf(),
        solver_unchanged(*old(solver), *final(solver)),
        match bits@ {
            AbsVal::Bits(b) => r matches Ok(w) && w == b.width(),
            AbsVal::Symbolic(s) => match old(solver).spec_length(s) {
                Some(len) => r matches Ok(w) && w == len,
                None => r matches Err(e) && e is Type,
            },
            _ => r matches Err(e) && e is Type,
        },
{
    match bits {
        Val::Bits(b) => Ok(b.len()),
        Val::Symbolic(s) => match solver.length(*s) {
            Some(len) => Ok(len),
            None => Err(type_error("length_bits")),
        },
        _ => Err(type_error("length_bits")),
    }
}

/// An all-zeros bit vector; lengths above the concrete maximum spill to
/// the solver, and a symbolic length is an error.
pub fn zeros(len: Val, solver: &mut Solver) -> (r: Result<Val, ExecError>)
    requires
        old(solver).wf(),
        old(solver).next_sym() < u32::MAX,
    ensures
        zeros_post(len@, r, *old(solver), *final(solver)),
{
    match len {
        Val::I128(n) => {
            if 0 <= n && n <= MAX_WIDTH as i128 {
                Ok(Val::Bits(Sbits::zeros(n as u32)))
            } else if n > MAX_WIDTH as i128 && n <= usize::MAX as i128 {
                Ok(define_result(solver, smt_zeros(n)))
            } else {
                Err(type_error("zeros"))
            }
        },
        Val::Symbolic(_) => Err(ExecError::SymbolicLength("zeros".to_owned())),
        _ => Err(type_error("zeros")),
    }
}

/// An all-ones bit vector; lengths above the concrete maximum spill to the
/// solver, and a symbolic length is an error.
pub fn ones(len: Val, solver: &mut Solver) -> (r: Result<Val, ExecError>)
    requires
        old(solver).wf(),
        old(solver).next_sym() < u32::MAX,
    ensures
        ones_post(len@, r, *old(solver), *final(solver)),
{
    match len {
        Val::I128(n) => {
            if 0 <= n && n <= MAX_WIDTH as i128 {
                Ok(Val::Bits(Sbits::ones(n as u32)))
            } else if n > MAX_WIDTH as i128 && n <= usize::MAX as i128 {
                Ok(define_result(solver, smt_ones(n)))
            } else {
                Err(type_error("ones"))
            }
        },
        Val::Symbolic(_) => Err(ExecError::SymbolicLength("ones".to_owned())),
        _ => Err(type_error("ones")),
    }
}

/// Zero-extend a bit vector to a target length; beyond the concrete
/// maximum the result is an SMT term.
pub fn zero_extend(bits: Val, len: Val, solver: &mut Solver) -> (r: Result<Val, ExecError>)
    requires
        old(solver).wf(),
        old(solver).next_sym() < u32::MAX,
        abs_wf(bits@),
    ensures
        zero_extend_post(bits@, len@, r, *old(solver), *final(solver)),
{
    match (bits, len) {
        (Val::Bits(b), Val::I128(n)) => {
            if b.len() as i128 <= n && n <= MAX_WIDTH as i128 {
                Ok(Val::Bits(b.zero_extend(n as u32)))
            } else if (MAX_WIDTH as i128) < n && n <= u32::MAX as i128 {
                let ext = (n as u32) - b.len();
                Ok(define_result(solver, Exp::ZeroExtend(ext, Box::new(smt_sbits(b)))))
            } else {
                Err(type_error("zero_extend"))
            }
        },
        (Val::Symbolic(s), Val::I128(n)) => match solver.length(s) {
            Some(w) => {
                if w as i128 <= n && n <= u32::MAX as i128 {
                    let ext = (n as u32) - w;
                    Ok(define_result(solver, Exp::ZeroExtend(ext, Box::new(Exp::Var(s)))))
                } else {
                    Err(type_error("zero_extend"))
                }
            },
            None => Err(type_error("zero_extend")),
        },
        (_, Val::Symbolic(_)) => Err(ExecError::SymbolicLength("extension".to_owned())),
        _ => Err(type_error("zero_extend")),
    }
}

/// Sign-extend a bit vector to a target length; beyond the concrete
/// maximum the result is an SMT term.
pub fn sign_extend(bits: Val, len: Val, solver: &mut Solver) -> (r: Result<Val, ExecError>)
    requires
        old(solver).wf(),
        old(solver).next_sym() < u32::MAX,
        abs_wf(bits@),
    ensures
        sign_extend_post(bits@, len@, r, *old(solver), *final(solver)),
{
    match (bits, len) {
        (Val::Bits(b), Val::I128(n)) => {
            if b.len() as i128 <= n && n <= MAX_WIDTH as i128 {
                Ok(Val::Bits(b.sign_extend(n as u32)))
            } else if (MAX_WIDTH as i128) < n && n <= u32::MAX as i128 {
                let ext = (n as u32) - b.len();
                Ok(define_result(solver, Exp::SignExtend(ext, Box::new(smt_sbits(b)))))
            } else {
                Err(type_error("sign_extend"))
            }
        },
        (Val::Symbolic(s), Val::I128(n)) => match solver.length(s) {
            Some(w) => {
                if w as i128 <= n && n <= u32::MAX as i128 {
                    let ext = (n as u32) - w;
                    Ok(define_result(solver, Exp::SignExtend(ext, Box::new(Exp::Var(s)))))
                } else {
                    Err(type_error("sign_extend"))
                }
            },
            None => Err(type_error("sign_extend")),
        },
        (_, Val::Symbolic(_)) => Err(ExecError::SymbolicLength("extension".to_owned())),
        _ => Err(type_error("sign_extend")),
    }
}

/// Zero-extend to a length given directly as an integer, used by the IR
/// operator form.
pub fn op_zero_extend(bits: Val, len: u32, solver: &mut Solver) -> (r: Result<Val, ExecError>)
    requires
        old(solver).wf(),
        old(solver).next_sym() < u32::MAX,
        abs_wf(bits@),
    ensures
        op_zero_extend_post(bits@, len, r, *old(solver), *final(solver)),
{
    match bits {
        Val::Bits(b) => {
            if b.len() <= len && len <= MAX_WIDTH {
                Ok(Val::Bits(b.zero_extend(len)))
            } else if MAX_WIDTH < len && b.len() <= len {
                let ext = len - b.len();
                Ok(define_result(solver, Exp::ZeroExtend(ext, Box::new(smt_sbits(b)))))
            } else {
                Err(type_error("op_zero_extend"))
            }
        },
        Val::Symbolic(s) => match solver.length(s) {
            Some(w) => {
                if w <= len {
                    Ok(define_result(solver, Exp::ZeroExtend(len - w, Box::new(Exp::Var(s)))))
                } else {
                    Err(type_error("op_zero_extend"))
                }
            },
            None => Err(type_error("op_zero_extend")),
        },
        _ => Err(type_error("op_zero_extend")),
    }
}

/// The term is a right-associated chain of `times` concatenated copies of
/// a base term recognized by `leaf`.
pub open spec fn is_rep_chain(r: Exp, b: Sbits, times: int) -> bool
    decreases times,
{
    if times <= 0 {
        r matches Exp::Bits64(v, w) && v == 0 && w == 0
    } else if times == 1 {
        is_sbits_lit(r, b)
    } else {
        r matches Exp::Concat(x, y) && is_sbits_lit(*x, b) && is_rep_chain(*y, b, times - 1)
    }
}

/// The same chain over a symbolic leaf.
pub open spec fn is_rep_chain_var(r: Exp, s: Sym, times: int) -> bool
    decreases times,
{
    if times <= 0 {
        r matches Exp::Bits64(v, w) && v == 0 && w == 0
    } else if times == 1 {
        r matches Exp::Var(x) && x == s
    } else {
        r matches Exp::Concat(x, y) && (*x matches Exp::Var(v) && v == s) && is_rep_chain_var(
            *y,
            s,
            times - 1,
        )
    }
}

/// A right-associated concatenation chain of `times` copies of the literal
/// of a concrete bit vector.
pub fn replicate_exp(b: Sbits, times: i128) -> (r: Exp)
    requires
        times >= 0,
    ensures
        is_rep_chain(r, b, times as int),
    decreases times,
{
    if times == 0 {
        Exp::Bits64(0, 0)
    } else if times == 1 {
        smt_sbits(b)
    } else {
        Exp::Concat(Box::new(smt_sbits(b)), Box::new(replicate_exp(b, times - 1)))
    }
}

/// A right-associated concatenation chain of `times` copies of a symbol.
fn replicate_exp_var(s: Sym, times: i128) -> (r: Exp)
    requires
        times >= 0,
    ensures
        is_rep_chain_var(r, s, times as int),
    decreases times,
{
    if times == 0 {
        Exp::Bits64(0, 0)
    } else if times == 1 {
        Exp::Var(s)
    } else {
        Exp::Concat(Box::new(Exp::Var(s)), Box::new(replicate_exp_var(s, times - 1)))
    }
}

/// Concatenate a number of copies of a bit vector; the result is concrete
/// when it fits, otherwise a chain of SMT concatenations.
pub fn replicate_bits(bits: Val, times: Val, solver: &mut Solver) -> (r: Result<Val, ExecError>)
    requires
        old(solver).wf(),
        old(solver).next_sym() < u32::MAX,
        abs_wf(bits@),
    ensures
        replicate_bits_post(bits@, times@, r, *old(solver), *final(solver)),
{
    match (bits, times) {
        (Val::Bits(b), Val::I128(t)) => match b.replicate(t) {
            Some(replicated) => Ok(Val::Bits(replicated)),
            None => {
                if t >= 0 {
                    Ok(define_result(solver, replicate_exp(b, t)))
                } else {
                    Err(type_error("replicate_bits"))
                }
            },
        },
        (Val::Symbolic(s), Val::I128(t)) => {
            if t == 0 {
                Ok(Val::Bits(Sbits::zeros(0)))
            } else if t > 0 {
                Ok(define_result(solver, replicate_exp_var(s, t)))
            } else {
                Err(type_error("replicate_bits"))
            }
        },
        _ => Err(type_error("replicate_bits")),
    }
}

/// Truncate a bit vector to its low bits; a symbolic length is an error.
pub fn sail_truncate(bits: Val, len: Val, solver: &mut Solver) -> (r: Result<Val, ExecError>)
    requires
        old(solver).wf(),
        old(solver).next_sym() < u32::MAX,
        abs_wf(bits@),
    ensures
        sail_truncate_post(bits@, len@, r, *old(solver), *final(solver)),
{
    match (bits, len) {
        (Val::Bits(b), Val::I128(n)) => {
            if 0 <= n && n <= b.len() as i128 {
                match b.slice(0, n as u32) {
                    Some(c) => {
                        proof {
                            vstd::arithmetic::power2::lemma2_to64();
                            assert((b.value() as nat) / pow2(0) == b.value() as nat) by {
                                vstd::arithmetic::div_mod::lemma_div_basics(b.value() as int);
                            }
                        }
                        Ok(Val::Bits(c))
                    },
                    None => Err(type_error("sail_truncate")),
                }
            } else {
                Err(type_error("sail_truncate"))
            }
        },
        (Val::Symbolic(s), Val::I128(n)) => match solver.length(s) {
            Some(w) => {
                if 0 < n && n <= w as i128 {
                    Ok(
                        define_result(
                            solver,
                            Exp::Extract((n - 1) as u32, 0, Box::new(Exp::Var(s))),
                        ),
                    )
                } else if n == 0 {
                    Ok(Val::Bits(Sbits::zeros(0)))
                } else {
                    Err(type_error("sail_truncate"))
                }
            },
            None => Err(type_error("sail_truncate")),
        },
        (_, Val::Symbolic(_)) => Err(ExecError::SymbolicLength("sail_truncate".to_owned())),
        _ => Err(type_error("sail_truncate")),
    }
}

/// Truncate a bit vector to its high bits; a symbolic length is an error.
pub fn sail_truncate_lsb(bits: Val, len: Val, solver: &mut Solver) -> (r: Result<Val, ExecError>)
    requires
        old(solver).wf(),
        old(solver).next_sym() < u32::MAX,
        abs_wf(bits@),
    ensures
        sail_truncate_lsb_post(bits@, len@, r, *old(solver), *final(solver)),
{
    match (bits, len) {
        (Val::Bits(b), Val::I128(n)) => match b.truncate_lsb(n) {
            Some(truncated) => Ok(Val::Bits(truncated)),
            None => Err(type_error("sail_truncateLSB")),
        },
        (Val::Symbolic(s), Val::I128(n)) => {
            if n == 0 {
                Ok(Val::Bits(Sbits::new(0, 0)))
            } else {
                match solver.length(s) {
                    Some(w) => {
                        if 0 < n && n <= w as i128 {
                            let low = w - (n as u32);
                            Ok(
                                define_result(
                                    solver,
                                    Exp::Extract(w - 1, low, Box::new(Exp::Var(s))),
                                ),
                            )
                        } else {
                            Err(type_error("sail_truncateLSB"))
                        }
                    },
                    None => Err(type_error("sail_truncateLSB")),
                }
            }
        },
        (_, Val::Symbolic(_)) => Err(ExecError::SymbolicLength("sail_truncateLSB".to_owned())),
        _ => Err(type_error("sail_truncateLSB")),
    }
}

/// The unsigned value of a bit vector as an integer; a symbolic bit vector
/// is zero-extended to 128 bits.
pub fn sail_unsigned(bits: Val, solver: &mut Solver) -> (r: Result<Val, ExecError>)
    requires
        old(solver).wf(),
        old(solver).next_sym() < u32::MAX,
        abs_wf(bits@),
    ensures
        sail_unsigned_post(bits@, r, *old(solver), *final(solver)),
{
    match bits {
        Val::Bits(b) => Ok(Val::I128(b.unsigned())),
        Val::Symbolic(s) => match solver.length(s) {
            Some(len) => {
                if len < 128 {
                    Ok(define_result(solver, Exp::ZeroExtend(128 - len, Box::new(Exp::Var(s)))))
                } else {
                    Err(type_error("sail_unsigned"))
                }
            },
            None => Err(type_error("sail_unsigned")),
        },
        _ => Err(type_error("sail_unsigned")),
    }
}

/// The signed value of a bit vector as an integer; a symbolic bit vector
/// is sign-extended to 128 bits.
pub fn sail_signed(bits: Val, solver: &mut Solver) -> (r: Result<Val, ExecError>)
    requires
        old(solver).wf(),
        old(solver).next_sym() < u32::MAX,
        abs_wf(bits@),
    ensures
        sail_signed_post(bits@, r, *old(solver), *final(solver)),
{
    match bits {
        Val::Bits(b) => Ok(Val::I128(b.signed())),
        Val::Symbolic(s) => match solver.length(s) {
            Some(len) => {
                if len < 128 {
                    Ok(define_result(solver, Exp::SignExtend(128 - len, Box::new(Exp::Var(s)))))
                } else {
                    Err(type_error("sail_signed"))
                }
            },
            None => Err(type_error("sail_signed")),
        },
        _ => Err(type_error("sail_signed")),
    }
}



/// The coercion of a 128-bit literal shift amount to a target width, as
/// [`coerce_to_width`] builds it.
pub open spec fn coerced_lit(t: Exp, len: u32, n: i128) -> bool {
    if len < 128 {
        t matches Exp::Extract(h, l, x) && h == len - 1 && l == 0 && is_i128_lit(*x, n)
    } else if len == 128 {
        is_i128_lit(t, n)
    } else {
        t matches Exp::ZeroExtend(m, x) && m == len - 128 && is_i128_lit(*x, n)
    }
}

/// The coercion of a symbolic shift amount to a target width, as
/// [`coerce_to_width`] builds it.
pub open spec fn coerced_var(t: Exp, len: u32, y: Sym) -> bool {
    if len < 128 {
        t matches Exp::Extract(h, l, x) && h == len - 1 && l == 0 && *x == Exp::Var(y)
    } else if len == 128 {
        t == Exp::Var(y)
    } else {
        t matches Exp::ZeroExtend(m, x) && m == len - 128 && *x == Exp::Var(y)
    }
}

/// Coerce a 128-bit shift-amount term to the width of the shifted term.
fn coerce_to_width(e: Exp, target: u32) -> (r: Exp)
    requires
        target >= 1,
    ensures
        target < 128 ==> (r matches Exp::Extract(h, l, x) && h == target - 1 && l == 0 && *x
            == e),
        target == 128 ==> r == e,
        target > 128 ==> (r matches Exp::ZeroExtend(n, x) && n == target - 128 && *x == e),
{
    if target < 128 {
        Exp::Extract(target - 1, 0, Box::new(e))
    } else if target > 128 {
        Exp::ZeroExtend(target - 128, Box::new(e))
    } else {
        e
    }
}

/// Logical right shift of a bit vector by an integer amount.
pub fn shiftr(bits: Val, shift: Val, solver: &mut Solver) -> (r: Result<Val, ExecError>)
    requires
        old(solver).wf(),
        old(solver).next_sym() < u32::MAX,
        abs_wf(bits@),
    ensures
        shiftr_post(bits@, shift@, r, *old(solver), *final(solver)),
{
    match (bits, shift) {
        (Val::Symbolic(x), Val::Symbolic(y)) => match solver.length(x) {
            Some(length) => {
                if length == 0 {
                    return Err(type_error("shiftr"));
                }
                let sh = coerce_to_width(Exp::Var(y), length);
                Ok(define_result(solver, Exp::Bvlshr(Box::new(Exp::Var(x)), Box::new(sh))))
            },
            None => Err(type_error("shiftr")),
        },
        (Val::Symbolic(x), Val::I128(y)) => {
            if y == 0 {
                Ok(Val::Symbolic(x))
            } else {
                match solver.length(x) {
                    Some(length) => {
                        if length == 0 {
                            return Err(type_error("shiftr"));
                        }
                        let sh = coerce_to_width(smt_i128(y), length);
                        Ok(define_result(solver, Exp::Bvlshr(Box::new(Exp::Var(x)), Box::new(sh))))
                    },
                    None => Err(type_error("shiftr")),
                }
            }
        },
        (Val::Bits(x), Val::Symbolic(y)) => {
            if x.len() == 0 {
                return Err(type_error("shiftr"));
            }
            let sh = coerce_to_width(Exp::Var(y), x.len());
            Ok(define_result(solver, Exp::Bvlshr(Box::new(smt_sbits(x)), Box::new(sh))))
        },
        (Val::Bits(x), Val::I128(y)) => Ok(Val::Bits(x.shiftr(y))),
        _ => Err(type_error("shiftr")),
    }
}

/// Arithmetic right shift of a bit vector by an integer amount.
pub fn arith_shiftr(bits: Val, shift: Val, solver: &mut Solver) -> (r: Result<Val, ExecError>)
    requires
        old(solver).wf(),
        old(solver).next_sym() < u32::MAX,
        abs_wf(bits@),
    ensures
        arith_shiftr_post(bits@, shift@, r, *old(solver), *final(solver)),
{
    match (bits, shift) {
        (Val::Symbolic(x), Val::Symbolic(y)) => match solver.length(x) {
            Some(length) => {
                if length == 0 {
                    return Err(type_error("arith_shiftr"));
                }
                let sh = coerce_to_width(Exp::Var(y), length);
                Ok(define_result(solver, Exp::Bvashr(Box::new(Exp::Var(x)), Box::new(sh))))
            },
            None => Err(type_error("arith_shiftr")),
        },
        (Val::Symbolic(x), Val::I128(y)) => {
            if y == 0 {
                Ok(Val::Symbolic(x))
            } else {
                match solver.length(x) {
                    Some(length) => {
                        if length == 0 {
                            return Err(type_error("arith_shiftr"));
                        }
                        let sh = coerce_to_width(smt_i128(y), length);
                        Ok(define_result(solver, Exp::Bvashr(Box::new(Exp::Var(x)), Box::new(sh))))
                    },
                    None => Err(type_error("arith_shiftr")),
                }
            }
        },
        (Val::Bits(x), Val::Symbolic(y)) => {
            if x.len() == 0 {
                return Err(type_error("arith_shiftr"));
            }
            let sh = coerce_to_width(Exp::Var(y), x.len());
            Ok(define_result(solver, Exp::Bvashr(Box::new(smt_sbits(x)), Box::new(sh))))
        },
        (Val::Bits(x), Val::I128(y)) => Ok(Val::Bits(x.arith_shiftr(y))),
        _ => Err(type_error("arith_shiftr")),
    }
}

/// Logical left shift of a bit vector by an integer amount.
pub fn shiftl(bits: Val, len: Val, solver: &mut Solver) -> (r: Result<Val, ExecError>)
    requires
        old(solver).wf(),
        old(solver).next_sym() < u32::MAX,
        abs_wf(bits@),
    ensures
        shiftl_post(bits@, len@, r, *old(solver), *final(solver)),
{
    match (bits, len) {
        (Val::Symbolic(x), Val::Symbolic(y)) => match solver.length(x) {
            Some(length) => {
                if length == 0 {
                    return Err(type_error("shiftl"));
                }
                let sh = coerce_to_width(Exp::Var(y), length);
                Ok(define_result(solver, Exp::Bvshl(Box::new(Exp::Var(x)), Box::new(sh))))
            },
            None => Err(type_error("shiftl")),
        },
        (Val::Symbolic(x), Val::I128(y)) => {
            if y == 0 {
                Ok(Val::Symbolic(x))
            } else {
                match solver.length(x) {
                    Some(length) => {
                        if length == 0 {
                            return Err(type_error("shiftl"));
                        }
                        let sh = coerce_to_width(smt_i128(y), length);
                        Ok(define_result(solver, Exp::Bvshl(Box::new(Exp::Var(x)), Box::new(sh))))
                    },
                    None => Err(type_error("shiftl")),
                }
            }
        },
        (Val::Bits(x), Val::Symbolic(y)) => {
            if x.len() == 0 {
                return Err(type_error("shiftl"));
            }
            let sh = coerce_to_width(Exp::Var(y), x.len());
            Ok(define_result(solver, Exp::Bvshl(Box::new(smt_sbits(x)), Box::new(sh))))
        },
        (Val::Bits(x), Val::I128(y)) => Ok(Val::Bits(x.shiftl(y))),
        _ => Err(type_error("shiftl")),
    }
}

/// Right shift of a bit vector by a bit-vector amount.
pub fn shift_bits_right(bits: Val, shift: Val, solver: &mut Solver) -> (r: Result<
    Val,
    ExecError,
>)
    requires
        old(solver).wf(),
        old(solver).next_sym() < u32::MAX,
        abs_wf(bits@),
        abs_wf(shift@),
    ensures
        shift_bits_right_post(bits@, shift@, r, *old(solver), *final(solver)),
{
    let bits_len = match length_bits(&bits, solver) {
        Ok(l) => l,
        Err(e) => {
            return Err(e);
        },
    };
    let shift_len = match length_bits(&shift, solver) {
        Ok(l) => l,
        Err(e) => {
            return Err(e);
        },
    };
    match (&bits, &shift) {
        (Val::Bits(x), Val::Bits(y)) => {
            let amount = y.lower_u64();
            Ok(Val::Bits(x.shiftr(amount as i128)))
        },
        (Val::Symbolic(_), Val::Symbolic(_))
        | (Val::Bits(_), Val::Symbolic(_))
        | (Val::Symbolic(_), Val::Bits(_)) => {
            let shexp = match smt_value(&shift) {
                Ok(e) => e,
                Err(e) => {
                    return Err(e);
                },
            };
            if bits_len == 0 {
                return Err(type_error("shift_bits"));
            }
            let sh = if bits_len < shift_len {
                Exp::Extract(bits_len - 1, 0, Box::new(shexp))
            } else if bits_len > shift_len {
                Exp::ZeroExtend(bits_len - shift_len, Box::new(shexp))
            } else {
                shexp
            };
            let bexp = match smt_value(&bits) {
                Ok(e) => e,
                Err(e) => {
                    return Err(e);
                },
            };
            Ok(define_result(solver, Exp::Bvlshr(Box::new(bexp), Box::new(sh))))
        },
        _ => Err(type_error("shift_bits_right")),
    }
}

/// Left shift of a bit vector by a bit-vector amount.
pub fn shift_bits_left(bits: Val, shift: Val, solver: &mut Solver) -> (r: Result<Val, ExecError>)
    requires
        old(solver).wf(),
        old(solver).next_sym() < u32::MAX,
        abs_wf(bits@),
        abs_wf(shift@),
    ensures
        shift_bits_left_post(bits@, shift@, r, *old(solver), *final(solver)),
{
    let bits_len = match length_bits(&bits, solver) {
        Ok(l) => l,
        Err(e) => {
            return Err(e);
        },
    };
    let shift_len = match length_bits(&shift, solver) {
        Ok(l) => l,
        Err(e) => {
            return Err(e);
        },
    };
    match (&bits, &shift) {
        (Val::Bits(x), Val::Bits(y)) => {
            let amount = y.lower_u64();
            Ok(Val::Bits(x.shiftl(amount as i128)))
        },
        (Val::Symbolic(_), Val::Symbolic(_))
        | (Val::Bits(_), Val::Symbolic(_))
        | (Val::Symbolic(_), Val::Bits(_)) => {
            let shexp = match smt_value(&shift) {
                Ok(e) => e,
                Err(e) => {
                    return Err(e);
                },
            };
            if bits_len == 0 {
                return Err(type_error("shift_bits"));
            }
            let sh = if bits_len < shift_len {
                Exp::Extract(bits_len - 1, 0, Box::new(shexp))
            } else if bits_len > shift_len {
                Exp::ZeroExtend(bits_len - shift_len, Box::new(shexp))
            } else {
                shexp
            };
            let bexp = match smt_value(&bits) {
                Ok(e) => e,
                Err(e) => {
                    return Err(e);
                },
            };
            Ok(define_result(solver, Exp::Bvshl(Box::new(bexp), Box::new(sh))))
        },
        _ => Err(type_error("shift_bits_left")),
    }
}

/// Concatenate two bit vectors; a result wider than the concrete maximum
/// becomes an SMT concatenation.
pub fn append(lhs: Val, rhs: Val, solver: &mut Solver) -> (r: Result<Val, ExecError>)
    requires
        old(solver).wf(),
        old(solver).next_sym() < u32::MAX,
        abs_wf(lhs@),
        abs_wf(rhs@),
    ensures
        append_post(lhs@, rhs@, r, *old(solver), *final(solver)),
{
    match (lhs, rhs) {
        (Val::Symbolic(x), Val::Symbolic(y)) => Ok(
            define_result(solver, Exp::Concat(Box::new(Exp::Var(x)), Box::new(Exp::Var(y)))),
        ),
        (Val::Symbolic(x), Val::Bits(y)) => {
            if y.len() == 0 {
                Ok(define_result(solver, Exp::Var(x)))
            } else {
                Ok(
                    define_result(
                        solver,
                        Exp::Concat(Box::new(Exp::Var(x)), Box::new(smt_sbits(y))),
                    ),
                )
            }
        },
        (Val::Bits(x), Val::Symbolic(y)) => {
            if x.len() == 0 {
                Ok(define_result(solver, Exp::Var(y)))
            } else {
                Ok(
                    define_result(
                        solver,
                        Exp::Concat(Box::new(smt_sbits(x)), Box::new(Exp::Var(y))),
                    ),
                )
            }
        },
        (Val::Bits(x), Val::Bits(y)) => match x.append(y) {
            Some(z) => Ok(Val::Bits(z)),
            None => Ok(
                define_result(
                    solver,
                    Exp::Concat(Box::new(smt_sbits(x)), Box::new(smt_sbits(y))),
                ),
            ),
        },
        _ => Err(type_error("append")),
    }
}

/// Add an integer to a bit vector, modulo two to the width; symbolic
/// operands use the low bits of the 128-bit integer term.
pub fn add_bits_int(bits: Val, n: Val, solver: &mut Solver) -> (r: Result<Val, ExecError>)
    requires
        old(solver).wf(),
        old(solver).next_sym() < u32::MAX,
        abs_wf(bits@),
    ensures
        add_bits_int_post(bits@, n@, r, *old(solver), *final(solver)),
{
    match (bits, n) {
        (Val::Bits(b), Val::I128(m)) => Ok(Val::Bits(b.add_i128(m))),
        (Val::Symbolic(b), Val::I128(m)) => match solver.length(b) {
            Some(len) => {
                if 0 < len && len <= 128 {
                    Ok(
                        define_result(
                            solver,
                            Exp::Bvadd(
                                Box::new(Exp::Var(b)),
                                Box::new(Exp::Extract(len - 1, 0, Box::new(smt_i128(m)))),
                            ),
                        ),
                    )
                } else {
                    Err(type_error("add_bits_int"))
                }
            },
            None => Err(type_error("add_bits_int")),
        },
        (Val::Symbolic(b), Val::Symbolic(m)) => match solver.length(b) {
            Some(len) => {
                if 0 < len && len <= 128 {
                    Ok(
                        define_result(
                            solver,
                            Exp::Bvadd(
                                Box::new(Exp::Var(b)),
                                Box::new(Exp::Extract(len - 1, 0, Box::new(Exp::Var(m)))),
                            ),
                        ),
                    )
                } else {
                    Err(type_error("add_bits_int"))
                }
            },
            None => Err(type_error("add_bits_int")),
        },
        _ => Err(type_error("add_bits_int")),
    }
}

/// Subtract an integer from a bit vector, modulo two to the width.
pub fn sub_bits_int(bits: Val, n: Val, solver: &mut Solver) -> (r: Result<Val, ExecError>)
    requires
        old(solver).wf(),
        old(solver).next_sym() < u32::MAX,
        abs_wf(bits@),
    ensures
        sub_bits_int_post(bits@, n@, r, *old(solver), *final(solver)),
{
    match (bits, n) {
        (Val::Bits(b), Val::I128(m)) => Ok(Val::Bits(b.sub_i128(m))),
        (Val::Symbolic(b), Val::I128(m)) => match solver.length(b) {
            Some(len) => {
                if 0 < len && len <= 128 {
                    Ok(
                        define_result(
                            solver,
                            Exp::Bvsub(
                                Box::new(Exp::Var(b)),
                                Box::new(Exp::Extract(len - 1, 0, Box::new(smt_i128(m)))),
                            ),
                        ),
                    )
                } else {
                    Err(type_error("sub_bits_int"))
                }
            },
            None => Err(type_error("sub_bits_int")),
        },
        (Val::Symbolic(b), Val::Symbolic(m)) => match solver.length(b) {
            Some(len) => {
                if 0 < len && len <= 128 {
                    Ok(
                        define_result(
                            solver,
                            Exp::Bvsub(
                                Box::new(Exp::Var(b)),
                                Box::new(Exp::Extract(len - 1, 0, Box::new(Exp::Var(m)))),
                            ),
                        ),
                    )
                } else {
                    Err(type_error("sub_bits_int"))
                }
            },
            None => Err(type_error("sub_bits_int")),
        },
        _ => Err(type_error("sub_bits_int")),
    }
}



/// The contract of [`slice_exp`]: a zero-length slice is the empty bit
/// vector; a symbolic position shifts the term right by the coerced
/// position and extracts the low bits; an integer position extracts the
/// named field, the whole term when it covers it exactly.
pub open spec fn slice_exp_post(
    bits_length: u32,
    bits_exp: Exp,
    from: AbsVal,
    slice_length: u32,
    r: Result<Val, ExecError>,
    pre: Solver,
    post: Solver,
) -> bool {
    match from {
        AbsVal::Symbolic(y) => if slice_length == 0 {
            (r matches Ok(v) && (v@ matches AbsVal::Bits(c) && c.width() == 0 && c.value() == 0))
                && solver_unchanged(pre, post)
        } else {
            r matches Ok(v) && defines_fresh(pre, post, v) && (last_exp(
                post,
            ) matches Exp::Extract(h, l, inner) && h == slice_length - 1 && l == 0
                && (*inner matches Exp::Bvlshr(bx, sh) && *bx == bits_exp && coerced_var(
                *sh,
                bits_length,
                y,
            )))
        },
        AbsVal::I128(n) => if slice_length == 0 {
            (r matches Ok(v) && (v@ matches AbsVal::Bits(c) && c.width() == 0 && c.value() == 0))
                && solver_unchanged(pre, post)
        } else if n == 0 && slice_length == bits_length {
            r matches Ok(v) && defines_fresh(pre, post, v) && last_exp(post) == bits_exp
        } else if 0 <= n && n <= (u32::MAX as i128) - (slice_length as i128) {
            r matches Ok(v) && defines_fresh(pre, post, v) && (last_exp(
                post,
            ) matches Exp::Extract(h, l, inner) && h == n + slice_length - 1 && l == n && *inner
                == bits_exp)
        } else {
            r matches Err(e) && e is Type && solver_unchanged(pre, post)
        },
        AbsVal::I64(n) => if slice_length == 0 {
            (r matches Ok(v) && (v@ matches AbsVal::Bits(c) && c.width() == 0 && c.value() == 0))
                && solver_unchanged(pre, post)
        } else if n == 0 && slice_length == bits_length {
            r matches Ok(v) && defines_fresh(pre, post, v) && last_exp(post) == bits_exp
        } else if 0 <= n && (n as i128) + (slice_length as i128) <= u32::MAX as i128 {
            r matches Ok(v) && defines_fresh(pre, post, v) && (last_exp(
                post,
            ) matches Exp::Extract(h, l, inner) && h == n + slice_length - 1 && l == n && *inner
                == bits_exp)
        } else {
            r matches Err(e) && e is Type && solver_unchanged(pre, post)
        },
        _ => r matches Err(e) && e is Type && solver_unchanged(pre, post),
    }
}

/// Extract `length` bits of a symbolic bit-vector term starting at a
/// possibly symbolic position, as in the slice family of operations.
fn slice_exp(
    bits_length: u32,
    bits_exp: Exp,
    from: &Val,
    slice_length: u32,
    solver: &mut Solver,
) -> (r: Result<Val, ExecError>)
    requires
        old(solver).wf(),
        old(solver).next_sym() < u32::MAX,
        slice_length <= bits_length,
        bits_length >= 1,
    ensures
        final(solver).wf(),
        solver_evolves(*old(solver), *final(solver)),
        slice_exp_post(
            bits_length,
            bits_exp,
            from@,
            slice_length,
            r,
            *old(solver),
            *final(solver),
        ),
{
    if slice_length == 0 {
        return match from {
            Val::Symbolic(_) | Val::I128(_) | Val::I64(_) => Ok(Val::Bits(Sbits::zeros(0))),
            _ => Err(type_error("slice")),
        };
    }
    match from {
        Val::Symbolic(from) => {
            let shift = coerce_to_width(Exp::Var(*from), bits_length);
            Ok(
                define_result(
                    solver,
                    Exp::Extract(
                        slice_length - 1,
                        0,
                        Box::new(Exp::Bvlshr(Box::new(bits_exp), Box::new(shift))),
                    ),
                ),
            )
        },
        Val::I128(from) => {
            if *from == 0 && slice_length == bits_length {
                Ok(define_result(solver, bits_exp))
            } else if 0 <= *from && *from <= (u32::MAX as i128) - (slice_length as i128) {
                Ok(
                    define_result(
                        solver,
                        Exp::Extract(
                            (*from + slice_length as i128 - 1) as u32,
                            *from as u32,
                            Box::new(bits_exp),
                        ),
                    ),
                )
            } else {
                Err(type_error("slice"))
            }
        },
        Val::I64(from) => {
            if *from == 0 && slice_length == bits_length {
                Ok(define_result(solver, bits_exp))
            } else if 0 <= *from && (*from as i128) + (slice_length as i128) <= u32::MAX as i128 {
                Ok(
                    define_result(
                        solver,
                        Exp::Extract(
                            ((*from as i128) + slice_length as i128 - 1) as u32,
                            *from as u32,
                            Box::new(bits_exp),
                        ),
                    ),
                )
            } else {
                Err(type_error("slice"))
            }
        },
        _ => Err(type_error("slice")),
    }
}

/// Extract `length` bits at position `from`, with the zero short-circuit:
/// slicing an all-zeros concrete bit vector at any position yields zeros
/// without consulting the solver.
pub fn op_slice(bits: Val, from: Val, length: u32, solver: &mut Solver) -> (r: Result<
    Val,
    ExecError,
>)
    requires
        old(solver).wf(),
        old(solver).next_sym() < u32::MAX,
        abs_wf(bits@),
    ensures
        op_slice_post(bits@, from@, length, r, *old(solver), *final(solver)),
{
    let bits_length = match length_bits(&bits, solver) {
        Ok(l) => l,
        Err(e) => {
            return Err(e);
        },
    };
    match bits {
        Val::Symbolic(b) => {
            if length <= bits_length && bits_length >= 1 {
                slice_exp(bits_length, Exp::Var(b), &from, length, solver)
            } else {
                Err(type_error("op_slice"))
            }
        },
        Val::Bits(b) => match from {
            Val::I64(n) => {
                if 0 <= n && n as i128 + length as i128 <= b.len() as i128 {
                    match b.slice(n as u32, length) {
                        Some(c) => Ok(Val::Bits(c)),
                        None => Err(type_error("op_slice")),
                    }
                } else {
                    Err(type_error("op_slice"))
                }
            },
            from => {
                if b.is_zero() && length <= b.len() {
                    Ok(Val::Bits(Sbits::zeros(length)))
                } else if length <= b.len() && b.len() >= 1 {
                    slice_exp(b.len(), smt_sbits(b), &from, length, solver)
                } else {
                    Err(type_error("op_slice"))
                }
            },
        },
        _ => Err(type_error("op_slice")),
    }
}

/// Extract `length` bits at position `from` of a bit vector, where both
/// may be symbolic but the length must be concrete.
pub fn slice_internal(bits: Val, from: Val, length: Val, solver: &mut Solver) -> (r: Result<
    Val,
    ExecError,
>)
    requires
        old(solver).wf(),
        old(solver).next_sym() < u32::MAX,
        abs_wf(bits@),
    ensures
        slice_internal_post(bits@, from@, length@, r, *old(solver), *final(solver)),
{
    let bits_length = match length_bits(&bits, solver) {
        Ok(l) => l,
        Err(e) => {
            return Err(e);
        },
    };
    match length {
        Val::I128(length) => {
            if length < 0 || length > bits_length as i128 {
                return Err(type_error("slice_internal"));
            }
            match bits {
                Val::Symbolic(b) => {
                    if bits_length >= 1 {
                        slice_exp(bits_length, Exp::Var(b), &from, length as u32, solver)
                    } else if length == 0 && (matches!(from, Val::I128(_)) || matches!(
                        from,
                        Val::Symbolic(_),
                    )) {
                        Ok(Val::Bits(Sbits::zeros(0)))
                    } else {
                        Err(type_error("slice_internal"))
                    }
                },
                Val::Bits(b) => match from {
                    Val::I128(f) => {
                        if 0 <= f {
                            match b.slice_from_i128(f, length as u32) {
                                Some(c) => Ok(Val::Bits(c)),
                                None => Err(type_error("slice_internal")),
                            }
                        } else {
                            Err(type_error("slice_internal"))
                        }
                    },
                    from => {
                        if b.is_zero() {
                            Ok(Val::Bits(Sbits::zeros(length as u32)))
                        } else if b.len() >= 1 {
                            slice_exp(b.len(), smt_sbits(b), &from, length as u32, solver)
                        } else {
                            Err(type_error("slice_internal"))
                        }
                    },
                },
                _ => Err(type_error("slice_internal")),
            }
        },
        Val::Symbolic(_) => Err(ExecError::SymbolicLength("slice_internal".to_owned())),
        _ => Err(type_error("slice_internal")),
    }
}

/// Extract the bits between positions `high` and `low`, both inclusive and
/// both concrete.
pub fn subrange_internal(bits: Val, high: Val, low: Val, solver: &mut Solver) -> (r: Result<
    Val,
    ExecError,
>)
    requires
        old(solver).wf(),
        old(solver).next_sym() < u32::MAX,
        abs_wf(bits@),
    ensures
        subrange_internal_post(bits@, high@, low@, r, *old(solver), *final(solver)),
{
    match (bits, high, low) {
        (Val::Symbolic(b), Val::I128(h), Val::I128(l)) => {
            if 0 <= l && l <= h && h <= u32::MAX as i128 {
                Ok(define_result(solver, Exp::Extract(h as u32, l as u32, Box::new(Exp::Var(b)))))
            } else {
                Err(type_error("subrange_internal"))
            }
        },
        (Val::Bits(b), Val::I128(h), Val::I128(l)) => {
            if 0 <= l && l <= h && h < b.len() as i128 {
                match b.extract(h as u32, l as u32) {
                    Some(c) => Ok(Val::Bits(c)),
                    None => Err(type_error("subrange_internal")),
                }
            } else {
                Err(type_error("subrange_internal"))
            }
        },
        (_, _, Val::Symbolic(_)) => Err(ExecError::SymbolicLength("subrange_internal".to_owned())),
        (_, Val::Symbolic(_), _) => Err(ExecError::SymbolicLength("subrange_internal".to_owned())),
        _ => Err(type_error("subrange_internal")),
    }
}


/// Overwrite part of a bit vector with an update, at a concrete or
/// symbolic position. All-concrete operands compute exactly; any symbolic
/// operand defines one fresh constant.
pub fn set_slice_internal(bits: Val, n: Val, update: Val, solver: &mut Solver) -> (r: Result<
    Val,
    ExecError,
>)
    requires
        old(solver).wf(),
        old(solver).next_sym() < u32::MAX,
        abs_wf(bits@),
        abs_wf(update@),
    ensures
        set_slice_internal_post(bits@, n@, update@, r, *old(solver), *final(solver)),
{
    let bits_length = match length_bits(&bits, solver) {
        Ok(l) => l,
        Err(e) => {
            return Err(e);
        },
    };
    let update_length = match length_bits(&update, solver) {
        Ok(l) => l,
        Err(e) => {
            return Err(e);
        },
    };
    match (bits, n, update) {
        (Val::Bits(b), Val::I128(m), Val::Bits(u)) => {
            if 0 <= m && m <= b.len() as i128 && (u.len() as i128) <= (b.len() as i128) - m {
                Ok(Val::Bits(b.set_slice(m as u32, u)))
            } else {
                Err(type_error("set_slice"))
            }
        },
        (Val::Symbolic(s), Val::I128(0), Val::Bits(u)) => {
            if bits_length == u.len() {
                Ok(Val::Bits(u))
            } else {
                set_slice_symbolic(
                    bits_length,
                    update_length,
                    &Val::Symbolic(s),
                    &Val::I128(0),
                    &Val::Bits(u),
                    solver,
                )
            }
        },
        (bits, n, update) => {
            if (matches!(bits, Val::Bits(_)) && matches!(n, Val::I128(_)) && matches!(
                update,
                Val::Bits(_),
            )) {
                return Err(type_error("set_slice"));
            }
            if !(matches!(bits, Val::Bits(_)) || matches!(bits, Val::Symbolic(_))) || !(matches!(
                n,
                Val::I128(_),
            ) || matches!(n, Val::Symbolic(_))) || !(matches!(update, Val::Bits(_)) || matches!(
                update,
                Val::Symbolic(_),
            )) {
                return Err(type_error("set_slice"));
            }
            set_slice_symbolic(bits_length, update_length, &bits, &n, &update, solver)
        },
    }
}

/// The symbolic encoding shared by the set-slice family: mask out the
/// target bits, shift the update into position and merge.
fn set_slice_symbolic(
    bits_length: u32,
    update_length: u32,
    bits: &Val,
    n: &Val,
    update: &Val,
    solver: &mut Solver,
) -> (r: Result<Val, ExecError>)
    requires
        old(solver).wf(),
        old(solver).next_sym() < u32::MAX,
    ensures
        final(solver).wf(),
        solver_evolves(*old(solver), *final(solver)),
        r is Ok ==> (r matches Ok(v) && (defines_fresh(*old(solver), *final(solver), v) || (v@
            matches AbsVal::Bits(c) && c.width() == 0))),
        !((bits@ is Symbolic || bits@ is Bits || bits@ is I128) && (n@ is Symbolic || n@ is I128
            || n@ is I64) && (update@ is Symbolic || update@ is Bits)) ==> (r matches Err(e) && e
            is Type && solver_unchanged(*old(solver), *final(solver))),
{
    let bexp = match smt_value(bits) {
        Ok(e) => e,
        Err(_) => {
            return Err(type_error("set_slice"));
        },
    };
    match bits {
        Val::Symbolic(_) | Val::Bits(_) | Val::I128(_) => {},
        _ => {
            return Err(type_error("set_slice"));
        },
    }
    let uexp = match update {
        Val::Symbolic(u) => Exp::Var(*u),
        Val::Bits(u) => smt_sbits(*u),
        _ => {
            return Err(type_error("set_slice"));
        },
    };
    match n {
        Val::Symbolic(_) | Val::I128(_) | Val::I64(_) => {},
        _ => {
            return Err(type_error("set_slice"));
        },
    }
    if bits_length == 0 {
        return Ok(Val::Bits(Sbits::zeros(0)));
    }
    if update_length == 0 {
        return Ok(define_result(solver, bexp));
    }
    if update_length > bits_length {
        return Err(type_error("set_slice"));
    }
    let mask = smt_mask_lower(bits_length as usize, update_length as usize);
    let widened = if bits_length == update_length {
        uexp
    } else {
        Exp::ZeroExtend(bits_length - update_length, Box::new(uexp))
    };
    // a concrete position of zero needs no shift
    let no_shift = match n {
        Val::I128(m) => *m == 0,
        Val::I64(m) => *m == 0,
        _ => false,
    };
    if no_shift {
        return Ok(
            define_result(
                solver,
                Exp::Bvor(
                    Box::new(
                        Exp::Bvand(Box::new(bexp), Box::new(Exp::Bvnot(Box::new(mask)))),
                    ),
                    Box::new(widened),
                ),
            ),
        );
    }
    let nexp1 = match n {
        Val::Symbolic(m) => Exp::Var(*m),
        Val::I128(m) => smt_i128(*m),
        Val::I64(m) => crate::primop::smt_i64(*m),
        _ => {
            return Err(type_error("set_slice"));
        },
    };
    let nexp2 = match n {
        Val::Symbolic(m) => Exp::Var(*m),
        Val::I128(m) => smt_i128(*m),
        Val::I64(m) => crate::primop::smt_i64(*m),
        _ => {
            return Err(type_error("set_slice"));
        },
    };
    let shift1 = coerce_to_width(nexp1, bits_length);
    let shift2 = coerce_to_width(nexp2, bits_length);
    Ok(
        define_result(
            solver,
            Exp::Bvor(
                Box::new(
                    Exp::Bvand(
                        Box::new(bexp),
                        Box::new(
                            Exp::Bvnot(
                                Box::new(
                                    Exp::Bvshl(Box::new(mask), Box::new(shift1)),
                                ),
                            ),
                        ),
                    ),
                ),
                Box::new(Exp::Bvshl(Box::new(widened), Box::new(shift2))),
            ),
        ),
    )
}

/// The set-slice operation with a 64-bit position, the IR operator form.
pub fn op_set_slice(bits: Val, n: Val, update: Val, solver: &mut Solver) -> (r: Result<
    Val,
    ExecError,
>)
    requires
        old(solver).wf(),
        old(solver).next_sym() < u32::MAX,
        abs_wf(bits@),
        abs_wf(update@),
    ensures
        op_set_slice_post(bits@, n@, update@, r, *old(solver), *final(solver)),
{
    let bits_length = match length_bits(&bits, solver) {
        Ok(l) => l,
        Err(e) => {
            return Err(e);
        },
    };
    let update_length = match length_bits(&update, solver) {
        Ok(l) => l,
        Err(e) => {
            return Err(e);
        },
    };
    match (bits, n, update) {
        (Val::Bits(b), Val::I64(m), Val::Bits(u)) => {
            if 0 <= m && (m as i128) <= b.len() as i128 && (u.len() as i128) <= (b.len()
                as i128) - (m as i128) {
                Ok(Val::Bits(b.set_slice(m as u32, u)))
            } else {
                Err(type_error("set_slice"))
            }
        },
        (bits, n, update) => {
            if (matches!(bits, Val::Bits(_)) && matches!(n, Val::I64(_)) && matches!(
                update,
                Val::Bits(_),
            )) {
                return Err(type_error("set_slice"));
            }
            if !(matches!(bits, Val::Bits(_)) || matches!(bits, Val::Symbolic(_))) || !(matches!(
                n,
                Val::I64(_),
            ) || matches!(n, Val::Symbolic(_))) || !(matches!(update, Val::Bits(_)) || matches!(
                update,
                Val::Symbolic(_),
            )) {
                return Err(type_error("set_slice"));
            }
            set_slice_symbolic(bits_length, update_length, &bits, &n, &update, solver)
        },
    }
}

/// Overwrite part of the two's complement representation of an integer.
pub fn set_slice_int_internal(xint: Val, n: Val, update: Val, solver: &mut Solver) -> (r: Result<
    Val,
    ExecError,
>)
    requires
        old(solver).wf(),
        old(solver).next_sym() < u32::MAX,
        abs_wf(update@),
    ensures
        set_slice_int_internal_post(xint@, n@, update@, r, *old(solver), *final(solver)),
{
    let update_length = match length_bits(&update, solver) {
        Ok(l) => l,
        Err(e) => {
            return Err(e);
        },
    };
    match (xint, n, update) {
        (Val::I128(x), Val::I128(m), Val::Bits(u)) => {
            if 0 <= m && m <= 128 && (u.len() as i128) <= 128 - m {
                Ok(Val::I128(Sbits::set_slice_int(x, m as u32, u)))
            } else {
                Err(type_error("set_slice_int"))
            }
        },
        (xint, n, update) => {
            if (matches!(xint, Val::I128(_)) && matches!(n, Val::I128(_)) && matches!(
                update,
                Val::Bits(_),
            )) {
                return Err(type_error("set_slice_int"));
            }
            if !(matches!(xint, Val::I128(_)) || matches!(xint, Val::Symbolic(_))) || !(matches!(
                n,
                Val::I128(_),
            ) || matches!(n, Val::Symbolic(_))) || !(matches!(update, Val::Bits(_)) || matches!(
                update,
                Val::Symbolic(_),
            )) {
                return Err(type_error("set_slice_int"));
            }
            set_slice_symbolic(128, update_length, &xint, &n, &update, solver)
        },
    }
}

/// Extract a slice of the two's complement representation of an integer.
pub fn get_slice_int_internal(length: Val, n: Val, from: Val, solver: &mut Solver) -> (r: Result<
    Val,
    ExecError,
>)
    requires
        old(solver).wf(),
        old(solver).next_sym() < u32::MAX,
    ensures
        get_slice_int_internal_post(length@, n@, from@, r, *old(solver), *final(solver)),
{
    match length {
        Val::I128(len) => match n {
            Val::Symbolic(x) => {
                if 0 <= len && len <= 128 {
                    slice_exp(128, Exp::Var(x), &from, len as u32, solver)
                } else {
                    Err(type_error("get_slice_int"))
                }
            },
            Val::I128(x) => match from {
                Val::I128(f) => {
                    if 0 <= len && len <= MAX_WIDTH as i128 && 0 <= f && f <= u32::MAX as i128 {
                        Ok(Val::Bits(Sbits::get_slice_int(len as u32, x, f as u32)))
                    } else if 0 <= len && len <= 128 {
                        slice_exp(128, smt_i128(x), &from, len as u32, solver)
                    } else {
                        Err(type_error("get_slice_int"))
                    }
                },
                _ => {
                    if 0 <= len && len <= 128 {
                        slice_exp(128, smt_i128(x), &from, len as u32, solver)
                    } else {
                        Err(type_error("get_slice_int"))
                    }
                },
            },
            _ => Err(type_error("get_slice_int")),
        },
        Val::Symbolic(_) => Err(ExecError::SymbolicLength("get_slice_int".to_owned())),
        _ => Err(type_error("get_slice_int")),
    }
}

/// Access one element or bit of a vector by index.
pub fn vector_access(vec: Val, n: Val, solver: &mut Solver) -> (r: Result<Val, ExecError>)
    requires
        old(solver).wf(),
        old(solver).next_sym() < u32::MAX,
        abs_wf(vec@),
    ensures
        vector_access_post(vec@, n@, r, *old(solver), *final(solver)),
{
    match (vec, n) {
        (Val::Symbolic(b), Val::Symbolic(m)) => match solver.length(b) {
            Some(length) => {
                if length == 0 {
                    return Err(type_error("vector_access"));
                }
                let shift = coerce_to_width(Exp::Var(m), length);
                Ok(
                    define_result(
                        solver,
                        Exp::Extract(
                            0,
                            0,
                            Box::new(Exp::Bvlshr(Box::new(Exp::Var(b)), Box::new(shift))),
                        ),
                    ),
                )
            },
            None => Err(type_error("vector_access")),
        },
        (Val::Symbolic(b), Val::I128(m)) => match solver.length(b) {
            Some(length) => {
                if length == 0 {
                    return Err(type_error("vector_access"));
                }
                let shift = coerce_to_width(smt_i128(m), length);
                Ok(
                    define_result(
                        solver,
                        Exp::Extract(
                            0,
                            0,
                            Box::new(Exp::Bvlshr(Box::new(Exp::Var(b)), Box::new(shift))),
                        ),
                    ),
                )
            },
            None => Err(type_error("vector_access")),
        },
        (Val::Bits(b), Val::Symbolic(m)) => {
            if b.len() == 0 {
                return Err(type_error("vector_access"));
            }
            let shift = coerce_to_width(Exp::Var(m), b.len());
            Ok(
                define_result(
                    solver,
                    Exp::Extract(
                        0,
                        0,
                        Box::new(Exp::Bvlshr(Box::new(smt_sbits(b)), Box::new(shift))),
                    ),
                ),
            )
        },
        (Val::Bits(b), Val::I128(m)) => {
            if 0 <= m && m < b.len() as i128 {
                proof {
                    vstd::arithmetic::power2::lemma2_to64();
                }
                match b.slice(m as u32, 1) {
                    Some(bit) => Ok(Val::Bits(bit)),
                    None => Err(type_error("vector_access")),
                }
            } else {
                Err(type_error("vector_access"))
            }
        },
        (Val::Vector(items), Val::I128(m)) => {
            proof {
                crate::value::lemma_vals_view_len(items@);
            }
            if 0 <= m && m < items.len() as i128 {
                let elem = crate::value::clone_val(&items[m as usize]);
                proof {
                    crate::value::lemma_vals_view_index(items@, m as int);
                }
                Ok(elem)
            } else {
                Err(ExecError::OutOfBounds("vector_access".to_owned()))
            }
        },
        _ => Err(type_error("vector_access")),
    }
}

/// Count the zero bits above the most significant one bit; the symbolic
/// form is a divide-and-conquer selector over the halves of the bit
/// vector.
pub fn count_leading_zeros(bv: Val, solver: &mut Solver) -> (r: Result<Val, ExecError>)
    requires
        old(solver).wf(),
        old(solver).next_sym() + 6 * 129 < u32::MAX,
        abs_wf(bv@),
    ensures
        count_leading_zeros_post(bv@, r, *old(solver), *final(solver)),
{
    match bv {
        Val::Bits(b) => Ok(Val::I128(b.leading_zeros() as i128)),
        Val::Symbolic(b) => match solver.length(b) {
            Some(len) => {
                if 0 < len && len <= 128 {
                    let q = smt_clz(b, len, solver);
                    Ok(Val::Symbolic(q))
                } else {
                    Err(type_error("count_leading_zeros"))
                }
            },
            None => Err(type_error("count_leading_zeros")),
        },
        _ => Err(type_error("count_leading_zeros")),
    }
}



/// A marker for one choice of split symbols and point in the encoding.
pub open spec fn clz_pick(top: Sym, low: Sym, top_clz: Sym, low_clz: Sym, m: int) -> bool {
    true
}

/// The divide-and-conquer leading-zero-count encoding, as one segment of
/// the definition trace: a single bit becomes one selector between one and
/// zero; a wider vector's two halves are extracted, each half is encoded in
/// turn, and one selector adds the top width to the low count when the top
/// half is all zeros, else takes the top count.
pub open spec fn clz_segment(tr: Seq<Def>, a: int, b: int, bv: Sym, len: u32, q: Sym) -> bool
    decreases len,
{
    if len <= 1 {
        &&& 0 <= a && b == a + 1 && b <= tr.len()
        &&& tr[a] matches Def::DefineConst(s, e) && s == q && (e matches Exp::Ite(c, t, el) && (
        *c matches Exp::Eq(x, z) && *x == Exp::Var(bv) && (*z matches Exp::Bits(v) && v@
            == Seq::new(1, |k: int| false))) && is_i128_lit(*t, 1) && is_i128_lit(*el, 0))
    } else {
        let low_len = (len / 2) as u32;
        let top_len = (len - low_len) as u32;
        exists|top: Sym, low: Sym, top_clz: Sym, low_clz: Sym, m: int|
            {
                &&& 0 <= a && a + 2 <= m && m < b && b <= tr.len()
                &&& #[trigger] clz_pick(top, low, top_clz, low_clz, m)
                &&& tr[a] matches Def::DefineConst(ts, te) && ts == top && (
                te matches Exp::Extract(h, l, x) && h == len - 1 && l == low_len && *x == Exp::Var(
                    bv,
                ))
                &&& tr[a + 1] matches Def::DefineConst(ls, le) && ls == low && (
                le matches Exp::Extract(h2, l2, x2) && h2 == low_len - 1 && l2 == 0 && *x2
                    == Exp::Var(bv))
                &&& clz_segment(tr, a + 2, m, top, top_len, top_clz)
                &&& clz_segment(tr, m, b - 1, low, low_len, low_clz)
                &&& tr[b - 1] matches Def::DefineConst(qs, qe) && qs == q && (
                qe matches Exp::Ite(c, t, el) && (*c matches Exp::Eq(x3, z3) && *x3 == Exp::Var(
                    top,
                ) && (*z3 matches Exp::Bits(v3) && v3@ == Seq::new(top_len as nat, |k: int| false)))
                    && (*t matches Exp::Bvadd(p1, p2) && is_i128_lit(*p1, top_len as i128) && *p2
                    == Exp::Var(low_clz)) && *el == Exp::Var(top_clz))
            }
    }
}

/// An encoded segment stays encoded when the trace grows.
proof fn lemma_clz_segment_prefix(
    tr1: Seq<Def>,
    tr2: Seq<Def>,
    a: int,
    b: int,
    bv: Sym,
    len: u32,
    q: Sym,
)
    requires
        clz_segment(tr1, a, b, bv, len, q),
        tr1.is_prefix_of(tr2),
    ensures
        clz_segment(tr2, a, b, bv, len, q),
    decreases len,
{
    assert forall|i: int| 0 <= i < tr1.len() implies tr2[i] == tr1[i] by {
        assert(tr1[i] == tr2.subrange(0, tr1.len() as int)[i]);
    }
    if len <= 1 {
    } else {
        let (top, low, top_clz, low_clz, m): (Sym, Sym, Sym, Sym, int) = choose|
            top: Sym,
            low: Sym,
            top_clz: Sym,
            low_clz: Sym,
            m: int,
        |
            {
                &&& 0 <= a && a + 2 <= m && m < b && b <= tr1.len()
                &&& #[trigger] clz_pick(top, low, top_clz, low_clz, m)
                &&& tr1[a] matches Def::DefineConst(ts, te) && ts == top && (
                te matches Exp::Extract(h, l, x) && h == len - 1 && l == len / 2 && *x == Exp::Var(
                    bv,
                ))
                &&& tr1[a + 1] matches Def::DefineConst(ls, le) && ls == low && (
                le matches Exp::Extract(h2, l2, x2) && h2 == len / 2 - 1 && l2 == 0 && *x2
                    == Exp::Var(bv))
                &&& clz_segment(tr1, a + 2, m, top, (len - len / 2) as u32, top_clz)
                &&& clz_segment(tr1, m, b - 1, low, (len / 2) as u32, low_clz)
                &&& tr1[b - 1] matches Def::DefineConst(qs, qe) && qs == q && (
                qe matches Exp::Ite(c, t, el) && (*c matches Exp::Eq(x3, z3) && *x3 == Exp::Var(
                    top,
                ) && (*z3 matches Exp::Bits(v3) && v3@ == Seq::new(
                    (len - len / 2) as nat,
                    |k: int| false,
                ))) && (*t matches Exp::Bvadd(p1, p2) && is_i128_lit(*p1, (len - len / 2) as i128)
                    && *p2 == Exp::Var(low_clz)) && *el == Exp::Var(top_clz))
            };
        lemma_clz_segment_prefix(tr1, tr2, a + 2, m, top, (len - len / 2) as u32, top_clz);
        lemma_clz_segment_prefix(tr1, tr2, m, b - 1, low, (len / 2) as u32, low_clz);
    }
}

/// The divide-and-conquer leading-zero-count encoding: split the bit
/// vector at its midpoint; when the high half is all zeros the count is
/// the high width plus the count of the low half, otherwise the count of
/// the high half.
pub fn smt_clz(bv: Sym, len: u32, solver: &mut Solver) -> (q: Sym)
    requires
        old(solver).wf(),
        0 < len <= 128,
        old(solver).next_sym() + 6 * (len as nat) < u32::MAX,
    ensures
        final(solver).wf(),
        solver_evolves(*old(solver), *final(solver)),
        final(solver).next_sym() <= old(solver).next_sym() + 6 * (len as nat) - 3,
        final(solver).next_sym() > old(solver).next_sym(),
        q < final(solver).next_sym(),
        clz_segment(
            final(solver).trace(),
            old(solver).trace().len() as int,
            final(solver).trace().len() as int,
            bv,
            len,
            q,
        ),
    decreases len,
{
    if len == 1 {
        let s = solver.define_const(
            Exp::Ite(
                Box::new(
                    Exp::Eq(Box::new(Exp::Var(bv)), Box::new(smt_zeros(1))),
                ),
                Box::new(smt_i128(1)),
                Box::new(smt_i128(0)),
            ),
        );
        proof {
            assert(solver.trace().subrange(0, old(solver).trace().len() as int) =~= old(
                solver,
            ).trace());
            lemma_trace_push_prefix(*old(solver), *solver);
            assert(solver.trace()[old(solver).trace().len() as int] == solver.trace().last());
        }
        s
    } else {
        let low_len = len / 2;
        let top_len = len - low_len;
        let ghost s0 = *solver;
        let top = solver.define_const(
            Exp::Extract(len - 1, low_len, Box::new(Exp::Var(bv))),
        );
        proof {
            assert(solver.trace().subrange(0, s0.trace().len() as int) =~= s0.trace());
            lemma_trace_push_prefix(s0, *solver);
        }
        let ghost s1 = *solver;
        let low = solver.define_const(
            Exp::Extract(low_len - 1, 0, Box::new(Exp::Var(bv))),
        );
        proof {
            assert(solver.trace().subrange(0, s1.trace().len() as int) =~= s1.trace());
            lemma_trace_push_prefix(s1, *solver);
        }
        let ghost sl = *solver;
        let top_clz = smt_clz(top, top_len, solver);
        let ghost s_top = *solver;
        let low_clz = smt_clz(low, low_len, solver);
        let ghost s_low = *solver;
        let ghost m = s_top.trace().len() as int;
        let ghost s2 = *solver;
        let q = solver.define_const(
            Exp::Ite(
                Box::new(
                    Exp::Eq(
                        Box::new(Exp::Var(top)),
                        Box::new(smt_zeros(top_len as i128)),
                    ),
                ),
                Box::new(
                    Exp::Bvadd(
                        Box::new(smt_i128(top_len as i128)),
                        Box::new(Exp::Var(low_clz)),
                    ),
                ),
                Box::new(Exp::Var(top_clz)),
            ),
        );
        proof {
            assert(solver.trace().subrange(0, s2.trace().len() as int) =~= s2.trace());
            lemma_trace_push_prefix(s2, *solver);
            let a = old(solver).trace().len() as int;
            let b = solver.trace().len() as int;
            let tr = solver.trace();
            lemma_clz_segment_prefix(
                s_top.trace(),
                tr,
                a + 2,
                m,
                top,
                top_len,
                top_clz,
            );
            lemma_clz_segment_prefix(s_low.trace(), tr, m, b - 1, low, low_len, low_clz);
            assert(tr[a] == s1.trace()[a]) by {
                assert(s1.trace().is_prefix_of(tr));
                assert(s1.trace()[a] == tr.subrange(0, s1.trace().len() as int)[a]);
            }
            assert(sl.trace().len() == a + 2);
            assert(sl.trace()[a + 1] matches Def::DefineConst(ls, le) && ls == low && (
            le matches Exp::Extract(h2, l2, x2) && h2 == low_len - 1 && l2 == 0 && *x2
                == Exp::Var(bv)));
            assert(tr[a + 1] == sl.trace()[a + 1]) by {
                assert(sl.trace().is_prefix_of(s_top.trace()));
                assert(s_top.trace().is_prefix_of(s_low.trace()));
                assert(s_low.trace().is_prefix_of(tr));
                assert(sl.trace()[a + 1] == s_top.trace().subrange(
                    0,
                    sl.trace().len() as int,
                )[a + 1]);
                assert(s_top.trace()[a + 1] == s_low.trace().subrange(
                    0,
                    s_top.trace().len() as int,
                )[a + 1]);
                assert(s_low.trace()[a + 1] == tr.subrange(0, s_low.trace().len() as int)[a + 1]);
            }
            assert(tr[a] == s1.trace()[a + 0]);
            assert(s1.trace()[a] matches Def::DefineConst(ts, te) && ts == top && (
            te matches Exp::Extract(h, l, x) && h == len - 1 && l == low_len && *x == Exp::Var(
                bv,
            )));
            assert(b - 1 == s_low.trace().len());
            assert(tr[b - 1] == tr.last());
            assert(a + 2 <= m && m < b);
            assert(clz_pick(top, low, top_clz, low_clz, m));
            assert(clz_segment(tr, a, b, bv, len, q));
        }
        q
    }
}

/// Pushing one definition keeps the old trace as a prefix.
proof fn lemma_trace_push_prefix(a: Solver, b: Solver)
    requires
        b.trace().len() == a.trace().len() + 1,
        b.trace().subrange(0, a.trace().len() as int) =~= a.trace(),
    ensures
        a.trace().is_prefix_of(b.trace()),
{
}

/// Align a bit vector down to a multiple of an alignment: a power-of-two
/// alignment of a narrow vector masks the low bits; the general form
/// rounds the unsigned value down to a multiple.
pub fn align_bits(bv: Val, alignment: Val, solver: &mut Solver) -> (r: Result<Val, ExecError>)
    requires
        old(solver).wf(),
        old(solver).next_sym() + 8 < u32::MAX,
        abs_wf(bv@),
    ensures
        align_bits_post(bv@, alignment@, r, *old(solver), *final(solver)),
{
    let bv_len = match length_bits(&bv, solver) {
        Ok(l) => l,
        Err(e) => {
            return Err(e);
        },
    };
    match (bv, alignment) {
        (Val::Bits(b), Val::I128(a)) => {
            if a > 0 && b.len() <= 64 {
                Ok(Val::Bits(b.align_down(a)))
            } else {
                Err(type_error("align_bits"))
            }
        },
        (Val::Symbolic(s), Val::I128(a)) => {
            if bv_len <= 64 && a > 0 && ((a as u128) & ((a as u128) - 1)) == 0 && a <= u64::MAX
                as i128 {
                // power-of-two fast path: mask the low bits
                let mask = Sbits::new((a - 1) as u64, bv_len).bitnot();
                Ok(
                    define_result(
                        solver,
                        Exp::Bvand(Box::new(Exp::Var(s)), Box::new(smt_sbits(mask))),
                    ),
                )
            } else if 0 < bv_len && bv_len <= 128 && a != 0 {
                // general path: multiply the alignment by the truncated
                // quotient of the unsigned value
                let x = match sail_unsigned(Val::Symbolic(s), solver) {
                    Ok(x) => x,
                    Err(e) => {
                        return Err(e);
                    },
                };
                let quotient = match crate::primop::udiv_int(x, Val::I128(a), solver) {
                    Ok(q) => q,
                    Err(e) => {
                        return Err(e);
                    },
                };
                let aligned = match crate::primop::mult_int(Val::I128(a), quotient, solver) {
                    Ok(m) => m,
                    Err(e) => {
                        return Err(e);
                    },
                };
                get_slice_int_internal(
                    Val::I128(bv_len as i128),
                    aligned,
                    Val::I128(0),
                    solver,
                )
            } else {
                Err(type_error("align_bits"))
            }
        },
        _ => Err(type_error("align_bits")),
    }
}

/// The contract of [`length`], as one predicate over the views of its
/// operands and the solver before and after.
pub open spec fn length_post(x: AbsVal, r: Result<Val, ExecError>, pre: Solver, post: Solver) -> bool {
        &&& ({
        post.wf()
        })
        &&& ({
        solver_unchanged(pre, post)
        })
        &&& ({
        match x {
            AbsVal::Bits(b) => r matches Ok(v) && v@ == AbsVal::I128(b.width() as i128),
            AbsVal::Symbolic(s) => match pre.spec_length(s) {
                Some(len) => r matches Ok(v) && v@ == AbsVal::I128(len as i128),
                None => r matches Err(e) && e is Type,
            },
            _ => r matches Err(e) && e is Type,
        }
        })
}

/// The contract of [`zeros`], as one predicate over the views of its
/// operands and the solver before and after.
pub open spec fn zeros_post(len: AbsVal, r: Result<Val, ExecError>, pre: Solver, post: Solver) -> bool {
        &&& ({
        post.wf()
        })
        &&& ({
        match len {
            AbsVal::I128(n) => if 0 <= n <= MAX_WIDTH {
                r matches Ok(v) && (v@ matches AbsVal::Bits(b) && b.wf() && b.width() == n
                    && b.value() == 0) && solver_unchanged(pre, post)
            } else if n > MAX_WIDTH && n <= usize::MAX {
                r matches Ok(v) && defines_fresh(pre, post, v) && (last_exp(
                    post,
                ) matches Exp::Bits(bs) && bs@ == Seq::new(n as nat, |k: int| false))
            } else {
                r matches Err(e) && e is Type && solver_unchanged(pre, post)
            },
            AbsVal::Symbolic(_) => r matches Err(e) && e is SymbolicLength && solver_unchanged(
                pre,
                post,
            ),
            _ => r matches Err(e) && e is Type && solver_unchanged(pre, post),
        }
        })
}

/// The contract of [`ones`], as one predicate over the views of its
/// operands and the solver before and after.
pub open spec fn ones_post(len: AbsVal, r: Result<Val, ExecError>, pre: Solver, post: Solver) -> bool {
        &&& ({
        post.wf()
        })
        &&& ({
        match len {
            AbsVal::I128(n) => if 0 <= n <= MAX_WIDTH {
                r matches Ok(v) && (v@ matches AbsVal::Bits(b) && b.wf() && b.width() == n
                    && b.value() as nat == pow2(n as nat) - 1) && solver_unchanged(
                    pre,
                    post,
                )
            } else if n > MAX_WIDTH && n <= usize::MAX {
                r matches Ok(v) && defines_fresh(pre, post, v) && (last_exp(
                    post,
                ) matches Exp::Bits(bs) && bs@ == Seq::new(n as nat, |k: int| true))
            } else {
                r matches Err(e) && e is Type && solver_unchanged(pre, post)
            },
            AbsVal::Symbolic(_) => r matches Err(e) && e is SymbolicLength && solver_unchanged(
                pre,
                post,
            ),
            _ => r matches Err(e) && e is Type && solver_unchanged(pre, post),
        }
        })
}

/// The contract of [`zero_extend`], as one predicate over the views of its
/// operands and the solver before and after.
pub open spec fn zero_extend_post(bits: AbsVal, len: AbsVal, r: Result<Val, ExecError>, pre: Solver, post: Solver) -> bool {
        &&& ({
        post.wf()
        })
        &&& ({
        match (bits, len) {
            (AbsVal::Bits(b), AbsVal::I128(n)) => if b.width() <= n <= MAX_WIDTH {
                r matches Ok(v) && (v@ matches AbsVal::Bits(c) && c.wf() && c.width() == n
                    && c.value() == b.value()) && solver_unchanged(pre, post)
            } else if MAX_WIDTH < n <= u32::MAX {
                r matches Ok(v) && defines_fresh(pre, post, v) && (last_exp(
                    post,
                ) matches Exp::ZeroExtend(ext, e) && ext == n - b.width() && is_sbits_lit(*e, b))
            } else {
                r matches Err(e) && e is Type && solver_unchanged(pre, post)
            },
            (AbsVal::Symbolic(s), AbsVal::I128(n)) => match pre.spec_length(s) {
                Some(w) => if w <= n <= u32::MAX {
                    r matches Ok(v) && defines_fresh(pre, post, v) && (last_exp(
                        post,
                    ) matches Exp::ZeroExtend(ext, e) && ext == n - w && *e == Exp::Var(s))
                } else {
                    r matches Err(e) && e is Type && solver_unchanged(pre, post)
                },
                None => r matches Err(e) && e is Type && solver_unchanged(
                    pre,
                    post,
                ),
            },
            (_, AbsVal::Symbolic(_)) => r matches Err(e) && e is SymbolicLength
                && solver_unchanged(pre, post),
            _ => r matches Err(e) && e is Type && solver_unchanged(pre, post),
        }
        })
}

/// The contract of [`sign_extend`], as one predicate over the views of its
/// operands and the solver before and after.
pub open spec fn sign_extend_post(bits: AbsVal, len: AbsVal, r: Result<Val, ExecError>, pre: Solver, post: Solver) -> bool {
        &&& ({
        post.wf()
        })
        &&& ({
        match (bits, len) {
            (AbsVal::Bits(b), AbsVal::I128(n)) => if b.width() <= n <= MAX_WIDTH {
                r matches Ok(v) && (v@ matches AbsVal::Bits(c) && c.wf() && c.width() == n
                    && c.value() as int == b.signed_value() % (pow2(n as nat) as int))
                    && solver_unchanged(pre, post)
            } else if MAX_WIDTH < n <= u32::MAX {
                r matches Ok(v) && defines_fresh(pre, post, v) && (last_exp(
                    post,
                ) matches Exp::SignExtend(ext, e) && ext == n - b.width() && is_sbits_lit(*e, b))
            } else {
                r matches Err(e) && e is Type && solver_unchanged(pre, post)
            },
            (AbsVal::Symbolic(s), AbsVal::I128(n)) => match pre.spec_length(s) {
                Some(w) => if w <= n <= u32::MAX {
                    r matches Ok(v) && defines_fresh(pre, post, v) && (last_exp(
                        post,
                    ) matches Exp::SignExtend(ext, e) && ext == n - w && *e == Exp::Var(s))
                } else {
                    r matches Err(e) && e is Type && solver_unchanged(pre, post)
                },
                None => r matches Err(e) && e is Type && solver_unchanged(
                    pre,
                    post,
                ),
            },
            (_, AbsVal::Symbolic(_)) => r matches Err(e) && e is SymbolicLength
                && solver_unchanged(pre, post),
            _ => r matches Err(e) && e is Type && solver_unchanged(pre, post),
        }
        })
}

/// The contract of [`op_zero_extend`], as one predicate over the views of its
/// operands and the solver before and after.
pub open spec fn op_zero_extend_post(bits: AbsVal, len: u32, r: Result<Val, ExecError>, pre: Solver, post: Solver) -> bool {
        &&& ({
        post.wf()
        })
        &&& ({
        match bits {
            AbsVal::Bits(b) => if b.width() <= len <= MAX_WIDTH {
                r matches Ok(v) && (v@ matches AbsVal::Bits(c) && c.wf() && c.width() == len
                    && c.value() == b.value()) && solver_unchanged(pre, post)
            } else if MAX_WIDTH < len && b.width() <= len {
                r matches Ok(v) && defines_fresh(pre, post, v) && (last_exp(
                    post,
                ) matches Exp::ZeroExtend(ext, e) && ext == len - b.width() && is_sbits_lit(
                    *e,
                    b,
                ))
            } else {
                r matches Err(e) && e is Type && solver_unchanged(pre, post)
            },
            AbsVal::Symbolic(s) => match pre.spec_length(s) {
                Some(w) => if w <= len {
                    r matches Ok(v) && defines_fresh(pre, post, v) && (last_exp(
                        post,
                    ) matches Exp::ZeroExtend(ext, e) && ext == len - w && *e == Exp::Var(s))
                } else {
                    r matches Err(e) && e is Type && solver_unchanged(pre, post)
                },
                None => r matches Err(e) && e is Type && solver_unchanged(
                    pre,
                    post,
                ),
            },
            _ => r matches Err(e) && e is Type && solver_unchanged(pre, post),
        }
        })
}

/// The contract of [`replicate_bits`], as one predicate over the views of its
/// operands and the solver before and after.
pub open spec fn replicate_bits_post(bits: AbsVal, times: AbsVal, r: Result<Val, ExecError>, pre: Solver, post: Solver) -> bool {
        &&& ({
        post.wf()
        })
        &&& ({
        match (bits, times) {
            (AbsVal::Bits(b), AbsVal::I128(t)) => if 0 <= t && b.width() * t <= MAX_WIDTH {
                r matches Ok(v) && (v@ matches AbsVal::Bits(c) && c.wf() && c.width() == b.width()
                    * t && c.value() as nat == crate::bitvector::replicate_value(
                    b.value() as nat,
                    b.width() as nat,
                    t as nat,
                )) && solver_unchanged(pre, post)
            } else if t >= 0 {
                r matches Ok(v) && defines_fresh(pre, post, v) && is_rep_chain(
                    last_exp(post),
                    b,
                    t as int,
                )
            } else {
                r matches Err(e) && e is Type && solver_unchanged(pre, post)
            },
            (AbsVal::Symbolic(s), AbsVal::I128(t)) => if t == 0 {
                r matches Ok(v) && (v@ matches AbsVal::Bits(c) && c.width() == 0 && c.value()
                    == 0) && solver_unchanged(pre, post)
            } else if t > 0 {
                r matches Ok(v) && defines_fresh(pre, post, v)
                    && is_rep_chain_var(last_exp(post), s, t as int)
            } else {
                r matches Err(e) && e is Type && solver_unchanged(pre, post)
            },
            _ => r matches Err(e) && e is Type && solver_unchanged(pre, post),
        }
        })
}

/// The contract of [`sail_truncate`], as one predicate over the views of its
/// operands and the solver before and after.
pub open spec fn sail_truncate_post(bits: AbsVal, len: AbsVal, r: Result<Val, ExecError>, pre: Solver, post: Solver) -> bool {
        &&& ({
        post.wf()
        })
        &&& ({
        match (bits, len) {
            (AbsVal::Bits(b), AbsVal::I128(n)) => if 0 <= n <= b.width() {
                r matches Ok(v) && (v@ matches AbsVal::Bits(c) && c.wf() && c.width() == n
                    && c.value() as nat == (b.value() as nat) % pow2(n as nat))
                    && solver_unchanged(pre, post)
            } else {
                r matches Err(e) && e is Type && solver_unchanged(pre, post)
            },
            (AbsVal::Symbolic(s), AbsVal::I128(n)) => match pre.spec_length(s) {
                Some(w) => if 0 < n <= w {
                    r matches Ok(v) && defines_fresh(pre, post, v) && last_exp(
                        post,
                    ) == Exp::Extract((n - 1) as u32, 0, Box::new(Exp::Var(s)))
                } else if n == 0 {
                    r matches Ok(v) && (v@ matches AbsVal::Bits(c) && c.width() == 0 && c.value()
                        == 0) && solver_unchanged(pre, post)
                } else {
                    r matches Err(e) && e is Type && solver_unchanged(pre, post)
                },
                None => r matches Err(e) && e is Type && solver_unchanged(
                    pre,
                    post,
                ),
            },
            (_, AbsVal::Symbolic(_)) => r matches Err(e) && e is SymbolicLength
                && solver_unchanged(pre, post),
            _ => r matches Err(e) && e is Type && solver_unchanged(pre, post),
        }
        })
}

/// The contract of [`sail_truncate_lsb`], as one predicate over the views of its
/// operands and the solver before and after.
pub open spec fn sail_truncate_lsb_post(bits: AbsVal, len: AbsVal, r: Result<Val, ExecError>, pre: Solver, post: Solver) -> bool {
        &&& ({
        post.wf()
        })
        &&& ({
        match (bits, len) {
            (AbsVal::Bits(b), AbsVal::I128(n)) => if 0 <= n <= b.width() {
                r matches Ok(v) && (v@ matches AbsVal::Bits(c) && c.wf() && c.width() == n
                    && c.value() as nat == (b.value() as nat) / pow2((b.width() - n) as nat))
                    && solver_unchanged(pre, post)
            } else {
                r matches Err(e) && e is Type && solver_unchanged(pre, post)
            },
            (AbsVal::Symbolic(s), AbsVal::I128(n)) => if n == 0 {
                r matches Ok(v) && (v@ matches AbsVal::Bits(c) && c.width() == 0 && c.value()
                    == 0) && solver_unchanged(pre, post)
            } else {
                match pre.spec_length(s) {
                    Some(w) => if 0 < n <= w {
                        r matches Ok(v) && defines_fresh(pre, post, v)
                            && last_exp(post) == Exp::Extract(
                            (w - 1) as u32,
                            (w - n) as u32,
                            Box::new(Exp::Var(s)),
                        )
                    } else {
                        r matches Err(e) && e is Type && solver_unchanged(
                            pre,
                            post,
                        )
                    },
                    None => r matches Err(e) && e is Type && solver_unchanged(
                        pre,
                        post,
                    ),
                }
            },
            (_, AbsVal::Symbolic(_)) => r matches Err(e) && e is SymbolicLength
                && solver_unchanged(pre, post),
            _ => r matches Err(e) && e is Type && solver_unchanged(pre, post),
        }
        })
}

/// The contract of [`sail_unsigned`], as one predicate over the views of its
/// operands and the solver before and after.
pub open spec fn sail_unsigned_post(bits: AbsVal, r: Result<Val, ExecError>, pre: Solver, post: Solver) -> bool {
        &&& ({
        post.wf()
        })
        &&& ({
        match bits {
            AbsVal::Bits(b) => r matches Ok(v) && v@ == AbsVal::I128(b.value() as i128)
                && solver_unchanged(pre, post),
            AbsVal::Symbolic(s) => match pre.spec_length(s) {
                Some(len) => if len < 128 {
                    r matches Ok(v) && defines_fresh(pre, post, v) && last_exp(
                        post,
                    ) == Exp::ZeroExtend((128 - len) as u32, Box::new(Exp::Var(s)))
                } else {
                    r matches Err(e) && e is Type && solver_unchanged(pre, post)
                },
                None => r matches Err(e) && e is Type && solver_unchanged(
                    pre,
                    post,
                ),
            },
            _ => r matches Err(e) && e is Type && solver_unchanged(pre, post),
        }
        })
}

/// The contract of [`sail_signed`], as one predicate over the views of its
/// operands and the solver before and after.
pub open spec fn sail_signed_post(bits: AbsVal, r: Result<Val, ExecError>, pre: Solver, post: Solver) -> bool {
        &&& ({
        post.wf()
        })
        &&& ({
        match bits {
            AbsVal::Bits(b) => r matches Ok(v) && v@ == AbsVal::I128(b.signed_value() as i128)
                && solver_unchanged(pre, post),
            AbsVal::Symbolic(s) => match pre.spec_length(s) {
                Some(len) => if len < 128 {
                    r matches Ok(v) && defines_fresh(pre, post, v) && last_exp(
                        post,
                    ) == Exp::SignExtend((128 - len) as u32, Box::new(Exp::Var(s)))
                } else {
                    r matches Err(e) && e is Type && solver_unchanged(pre, post)
                },
                None => r matches Err(e) && e is Type && solver_unchanged(
                    pre,
                    post,
                ),
            },
            _ => r matches Err(e) && e is Type && solver_unchanged(pre, post),
        }
        })
}

/// The contract of [`shiftr`], as one predicate over the views of its
/// operands and the solver before and after.
pub open spec fn shiftr_post(bits: AbsVal, shift: AbsVal, r: Result<Val, ExecError>, pre: Solver, post: Solver) -> bool {
        &&& ({
        post.wf()
        })
        &&& ({
        solver_evolves(pre, post)
        })
        &&& ({
        match (bits, shift) {
            (AbsVal::Bits(b), AbsVal::I128(n)) => r matches Ok(v) && (v@ matches AbsVal::Bits(c)
                && c.wf() && c.width() == b.width() && (n >= 0 ==> c.value() as nat == (
            b.value() as nat) / pow2(n as nat))) && solver_unchanged(pre, post),
            (AbsVal::Symbolic(s), AbsVal::I128(n)) => if n == 0 {
                r matches Ok(v) && v@ == AbsVal::Symbolic(s) && solver_unchanged(
                    pre,
                    post,
                )
            } else {
                match pre.spec_length(s) {
                    Some(len) => if len > 0 {
                        r matches Ok(v) && defines_fresh(pre, post, v) && (last_exp(
                            post,
                        ) matches Exp::Bvlshr(bx, sh) && *bx == Exp::Var(s) && coerced_lit(
                            *sh,
                            len,
                            n,
                        ))
                    } else {
                        r matches Err(e) && e is Type && solver_unchanged(
                            pre,
                            post,
                        )
                    },
                    None => r matches Err(e) && e is Type && solver_unchanged(
                        pre,
                        post,
                    ),
                }
            },
            (AbsVal::Symbolic(s), AbsVal::Symbolic(y)) => match pre.spec_length(s) {
                Some(len) => if len > 0 {
                    r matches Ok(v) && defines_fresh(pre, post, v) && (last_exp(
                        post,
                    ) matches Exp::Bvlshr(bx, sh) && *bx == Exp::Var(s) && coerced_var(
                        *sh,
                        len,
                        y,
                    ))
                } else {
                    r matches Err(e) && e is Type && solver_unchanged(
                        pre,
                        post,
                    )
                },
                None => r matches Err(e) && e is Type && solver_unchanged(
                    pre,
                    post,
                ),
            },
            (AbsVal::Bits(b2), AbsVal::Symbolic(y)) => if b2.width() > 0 {
                r matches Ok(v) && defines_fresh(pre, post, v) && (last_exp(
                    post,
                ) matches Exp::Bvlshr(bx, sh) && is_sbits_lit(*bx, b2) && coerced_var(
                    *sh,
                    b2.width(),
                    y,
                ))
            } else {
                r matches Err(e) && e is Type && solver_unchanged(pre, post)
            },
            _ => r matches Err(e) && e is Type && solver_unchanged(pre, post),
        }
        })
}

/// The contract of [`arith_shiftr`], as one predicate over the views of its
/// operands and the solver before and after.
pub open spec fn arith_shiftr_post(bits: AbsVal, shift: AbsVal, r: Result<Val, ExecError>, pre: Solver, post: Solver) -> bool {
        &&& ({
        post.wf()
        })
        &&& ({
        solver_evolves(pre, post)
        })
        &&& ({
        match (bits, shift) {
            (AbsVal::Bits(b), AbsVal::I128(n)) => r matches Ok(v) && (v@ matches AbsVal::Bits(c)
                && c.wf() && c.width() == b.width() && (n >= 0 ==> c.value() as int == (
            b.signed_value() / (pow2(n as nat) as int)) % (pow2(b.width() as nat) as int)))
                && solver_unchanged(pre, post),
            (AbsVal::Symbolic(s), AbsVal::I128(n)) => if n == 0 {
                r matches Ok(v) && v@ == AbsVal::Symbolic(s) && solver_unchanged(
                    pre,
                    post,
                )
            } else {
                match pre.spec_length(s) {
                    Some(len) => if len > 0 {
                        r matches Ok(v) && defines_fresh(pre, post, v) && (last_exp(
                            post,
                        ) matches Exp::Bvashr(bx, sh) && *bx == Exp::Var(s) && coerced_lit(
                            *sh,
                            len,
                            n,
                        ))
                    } else {
                        r matches Err(e) && e is Type && solver_unchanged(
                            pre,
                            post,
                        )
                    },
                    None => r matches Err(e) && e is Type && solver_unchanged(
                        pre,
                        post,
                    ),
                }
            },
            (AbsVal::Symbolic(s), AbsVal::Symbolic(y)) => match pre.spec_length(s) {
                Some(len) => if len > 0 {
                    r matches Ok(v) && defines_fresh(pre, post, v) && (last_exp(
                        post,
                    ) matches Exp::Bvashr(bx, sh) && *bx == Exp::Var(s) && coerced_var(
                        *sh,
                        len,
                        y,
                    ))
                } else {
                    r matches Err(e) && e is Type && solver_unchanged(
                        pre,
                        post,
                    )
                },
                None => r matches Err(e) && e is Type && solver_unchanged(
                    pre,
                    post,
                ),
            },
            (AbsVal::Bits(b2), AbsVal::Symbolic(y)) => if b2.width() > 0 {
                r matches Ok(v) && defines_fresh(pre, post, v) && (last_exp(
                    post,
                ) matches Exp::Bvashr(bx, sh) && is_sbits_lit(*bx, b2) && coerced_var(
                    *sh,
                    b2.width(),
                    y,
                ))
            } else {
                r matches Err(e) && e is Type && solver_unchanged(pre, post)
            },
            _ => r matches Err(e) && e is Type && solver_unchanged(pre, post),
        }
        })
}

/// The contract of [`shiftl`], as one predicate over the views of its
/// operands and the solver before and after.
pub open spec fn shiftl_post(bits: AbsVal, len: AbsVal, r: Result<Val, ExecError>, pre: Solver, post: Solver) -> bool {
        &&& ({
        post.wf()
        })
        &&& ({
        solver_evolves(pre, post)
        })
        &&& ({
        match (bits, len) {
            (AbsVal::Bits(b), AbsVal::I128(n)) => r matches Ok(v) && (v@ matches AbsVal::Bits(c)
                && c.wf() && c.width() == b.width() && (n >= 0 ==> c.value() as int == (((
            b.value() as nat) * pow2(n as nat)) as int) % (pow2(b.width() as nat) as int)))
                && solver_unchanged(pre, post),
            (AbsVal::Symbolic(s), AbsVal::I128(n)) => if n == 0 {
                r matches Ok(v) && v@ == AbsVal::Symbolic(s) && solver_unchanged(
                    pre,
                    post,
                )
            } else {
                match pre.spec_length(s) {
                    Some(len) => if len > 0 {
                        r matches Ok(v) && defines_fresh(pre, post, v) && (last_exp(
                            post,
                        ) matches Exp::Bvshl(bx, sh) && *bx == Exp::Var(s) && coerced_lit(
                            *sh,
                            len,
                            n,
                        ))
                    } else {
                        r matches Err(e) && e is Type && solver_unchanged(
                            pre,
                            post,
                        )
                    },
                    None => r matches Err(e) && e is Type && solver_unchanged(
                        pre,
                        post,
                    ),
                }
            },
            (AbsVal::Symbolic(s), AbsVal::Symbolic(y)) => match pre.spec_length(s) {
                Some(len) => if len > 0 {
                    r matches Ok(v) && defines_fresh(pre, post, v) && (last_exp(
                        post,
                    ) matches Exp::Bvshl(bx, sh) && *bx == Exp::Var(s) && coerced_var(
                        *sh,
                        len,
                        y,
                    ))
                } else {
                    r matches Err(e) && e is Type && solver_unchanged(
                        pre,
                        post,
                    )
                },
                None => r matches Err(e) && e is Type && solver_unchanged(
                    pre,
                    post,
                ),
            },
            (AbsVal::Bits(b2), AbsVal::Symbolic(y)) => if b2.width() > 0 {
                r matches Ok(v) && defines_fresh(pre, post, v) && (last_exp(
                    post,
                ) matches Exp::Bvshl(bx, sh) && is_sbits_lit(*bx, b2) && coerced_var(
                    *sh,
                    b2.width(),
                    y,
                ))
            } else {
                r matches Err(e) && e is Type && solver_unchanged(pre, post)
            },
            _ => r matches Err(e) && e is Type && solver_unchanged(pre, post),
        }
        })
}

/// The contract of [`shift_bits_right`], as one predicate over the views of its
/// operands and the solver before and after.
pub open spec fn shift_bits_right_post(bits: AbsVal, shift: AbsVal, r: Result<Val, ExecError>, pre: Solver, post: Solver) -> bool {
        &&& ({
        post.wf()
        })
        &&& ({
        solver_evolves(pre, post)
        })
        &&& ({
        match (bits, shift) {
            (AbsVal::Bits(b), AbsVal::Bits(sh)) => r matches Ok(v) && (v@ matches AbsVal::Bits(c)
                && c.wf() && c.width() == b.width() && c.value() as nat == (b.value() as nat)
                / pow2(sh.value() as nat)) && solver_unchanged(pre, post),
            (AbsVal::Symbolic(_), AbsVal::Symbolic(_))
            | (AbsVal::Bits(_), AbsVal::Symbolic(_))
            | (AbsVal::Symbolic(_), AbsVal::Bits(_)) => r is Ok ==> (r matches Ok(v)
                && defines_fresh(pre, post, v)),
            _ => r matches Err(e) && e is Type && solver_unchanged(pre, post),
        }
        })
}

/// The contract of [`shift_bits_left`], as one predicate over the views of its
/// operands and the solver before and after.
pub open spec fn shift_bits_left_post(bits: AbsVal, shift: AbsVal, r: Result<Val, ExecError>, pre: Solver, post: Solver) -> bool {
        &&& ({
        post.wf()
        })
        &&& ({
        solver_evolves(pre, post)
        })
        &&& ({
        match (bits, shift) {
            (AbsVal::Bits(b), AbsVal::Bits(sh)) => r matches Ok(v) && (v@ matches AbsVal::Bits(c)
                && c.wf() && c.width() == b.width() && c.value() as int == (((b.value() as nat)
                * pow2(sh.value() as nat)) as int) % (pow2(b.width() as nat) as int)) && solver_unchanged(
                pre,
                post,
            ),
            (AbsVal::Symbolic(_), AbsVal::Symbolic(_))
            | (AbsVal::Bits(_), AbsVal::Symbolic(_))
            | (AbsVal::Symbolic(_), AbsVal::Bits(_)) => r is Ok ==> (r matches Ok(v)
                && defines_fresh(pre, post, v)),
            _ => r matches Err(e) && e is Type && solver_unchanged(pre, post),
        }
        })
}

/// The contract of [`append`], as one predicate over the views of its
/// operands and the solver before and after.
pub open spec fn append_post(lhs: AbsVal, rhs: AbsVal, r: Result<Val, ExecError>, pre: Solver, post: Solver) -> bool {
        &&& ({
        post.wf()
        })
        &&& ({
        solver_evolves(pre, post)
        })
        &&& ({
        match (lhs, rhs) {
            (AbsVal::Bits(x), AbsVal::Bits(y)) => if x.width() + y.width() <= MAX_WIDTH {
                r matches Ok(v) && (v@ matches AbsVal::Bits(c) && c.wf() && c.width() == x.width()
                    + y.width() && c.value() as nat == (x.value() as nat) * pow2(y.width() as nat)
                    + y.value() as nat) && solver_unchanged(pre, post)
            } else {
                r matches Ok(v) && defines_fresh(pre, post, v) && (last_exp(
                    post,
                ) matches Exp::Concat(a, b) && is_sbits_lit(*a, x) && is_sbits_lit(*b, y))
            },
            (AbsVal::Symbolic(x), AbsVal::Symbolic(y)) => r matches Ok(v) && defines_fresh(
                pre,
                post,
                v,
            ) && (last_exp(post) matches Exp::Concat(a, b) && *a == Exp::Var(x) && *b
                == Exp::Var(y)),
            (AbsVal::Symbolic(x), AbsVal::Bits(y)) => if y.width() == 0 {
                r matches Ok(v) && defines_fresh(pre, post, v) && last_exp(
                    post,
                ) == Exp::Var(x)
            } else {
                r matches Ok(v) && defines_fresh(pre, post, v) && (last_exp(
                    post,
                ) matches Exp::Concat(a, b) && *a == Exp::Var(x) && is_sbits_lit(*b, y))
            },
            (AbsVal::Bits(x), AbsVal::Symbolic(y)) => if x.width() == 0 {
                r matches Ok(v) && defines_fresh(pre, post, v) && last_exp(
                    post,
                ) == Exp::Var(y)
            } else {
                r matches Ok(v) && defines_fresh(pre, post, v) && (last_exp(
                    post,
                ) matches Exp::Concat(a, b) && is_sbits_lit(*a, x) && *b == Exp::Var(y))
            },
            _ => r matches Err(e) && e is Type && solver_unchanged(pre, post),
        }
        })
}

/// The contract of [`add_bits_int`], as one predicate over the views of its
/// operands and the solver before and after.
pub open spec fn add_bits_int_post(bits: AbsVal, n: AbsVal, r: Result<Val, ExecError>, pre: Solver, post: Solver) -> bool {
        &&& ({
        post.wf()
        })
        &&& ({
        solver_evolves(pre, post)
        })
        &&& ({
        match (bits, n) {
            (AbsVal::Bits(b), AbsVal::I128(m)) => r matches Ok(v) && (v@ matches AbsVal::Bits(c)
                && c.wf() && c.width() == b.width() && c.value() as int == (b.value() + m) % (pow2(
                b.width() as nat,
            ) as int)) && solver_unchanged(pre, post),
            (AbsVal::Symbolic(s), AbsVal::I128(m)) => match pre.spec_length(s) {
                Some(len) => if 0 < len <= 128 {
                    r matches Ok(v) && defines_fresh(pre, post, v) && (last_exp(
                        post,
                    ) matches Exp::Bvadd(bx, mx) && *bx == Exp::Var(s) && (*mx matches Exp::Extract(
                        h,
                        l,
                        inner,
                    ) && h == len - 1 && l == 0 && is_i128_lit(*inner, m)))
                } else {
                    r matches Err(e) && e is Type && solver_unchanged(pre, post)
                },
                None => r matches Err(e) && e is Type && solver_unchanged(
                    pre,
                    post,
                ),
            },
            (AbsVal::Symbolic(s), AbsVal::Symbolic(y)) => match pre.spec_length(s) {
                Some(len) => if 0 < len <= 128 {
                    r matches Ok(v) && defines_fresh(pre, post, v) && (last_exp(
                        post,
                    ) matches Exp::Bvadd(bx, mx) && *bx == Exp::Var(s) && (*mx matches Exp::Extract(
                        h,
                        l,
                        inner,
                    ) && h == len - 1 && l == 0 && *inner == Exp::Var(y)))
                } else {
                    r matches Err(e) && e is Type && solver_unchanged(pre, post)
                },
                None => r matches Err(e) && e is Type && solver_unchanged(
                    pre,
                    post,
                ),
            },
            _ => r matches Err(e) && e is Type && solver_unchanged(pre, post),
        }
        })
}

/// The contract of [`sub_bits_int`], as one predicate over the views of its
/// operands and the solver before and after.
pub open spec fn sub_bits_int_post(bits: AbsVal, n: AbsVal, r: Result<Val, ExecError>, pre: Solver, post: Solver) -> bool {
        &&& ({
        post.wf()
        })
        &&& ({
        solver_evolves(pre, post)
        })
        &&& ({
        match (bits, n) {
            (AbsVal::Bits(b), AbsVal::I128(m)) => r matches Ok(v) && (v@ matches AbsVal::Bits(c)
                && c.wf() && c.width() == b.width() && c.value() as int == (b.value() - m) % (pow2(
                b.width() as nat,
            ) as int)) && solver_unchanged(pre, post),
            (AbsVal::Symbolic(s), AbsVal::I128(m)) => match pre.spec_length(s) {
                Some(len) => if 0 < len <= 128 {
                    r matches Ok(v) && defines_fresh(pre, post, v) && (last_exp(
                        post,
                    ) matches Exp::Bvsub(bx, mx) && *bx == Exp::Var(s) && (*mx matches Exp::Extract(
                        h,
                        l,
                        inner,
                    ) && h == len - 1 && l == 0 && is_i128_lit(*inner, m)))
                } else {
                    r matches Err(e) && e is Type && solver_unchanged(pre, post)
                },
                None => r matches Err(e) && e is Type && solver_unchanged(
                    pre,
                    post,
                ),
            },
            (AbsVal::Symbolic(s), AbsVal::Symbolic(y)) => match pre.spec_length(s) {
                Some(len) => if 0 < len <= 128 {
                    r matches Ok(v) && defines_fresh(pre, post, v) && (last_exp(
                        post,
                    ) matches Exp::Bvsub(bx, mx) && *bx == Exp::Var(s) && (*mx matches Exp::Extract(
                        h,
                        l,
                        inner,
                    ) && h == len - 1 && l == 0 && *inner == Exp::Var(y)))
                } else {
                    r matches Err(e) && e is Type && solver_unchanged(pre, post)
                },
                None => r matches Err(e) && e is Type && solver_unchanged(
                    pre,
                    post,
                ),
            },
            _ => r matches Err(e) && e is Type && solver_unchanged(pre, post),
        }
        })
}

/// The contract of [`op_slice`], as one predicate over the views of its
/// operands and the solver before and after.
pub open spec fn op_slice_post(bits: AbsVal, from: AbsVal, length: u32, r: Result<Val, ExecError>, pre: Solver, post: Solver) -> bool {
        &&& ({
        post.wf()
        })
        &&& ({
        solver_evolves(pre, post)
        })
        &&& ({
        match (bits, from) {
            (AbsVal::Bits(b), AbsVal::I64(n)) => if 0 <= n && n + length <= b.width() {
                r matches Ok(v) && (v@ matches AbsVal::Bits(c) && c.wf() && c.width() == length
                    && c.value() as nat == ((b.value() as nat) / pow2(n as nat)) % pow2(
                    length as nat,
                )) && solver_unchanged(pre, post)
            } else {
                r matches Err(e) && e is Type && solver_unchanged(pre, post)
            },
            (AbsVal::Bits(b), _) => if b.value() == 0 && length <= b.width() {
                r matches Ok(v) && (v@ matches AbsVal::Bits(c) && c.wf() && c.width() == length
                    && c.value() == 0) && solver_unchanged(pre, post)
            } else {
                r is Ok ==> (r matches Ok(v) && (defines_fresh(pre, post, v) || (
                v@ matches AbsVal::Bits(c) && c.width() == 0)))
            },
            (AbsVal::Symbolic(s), _) => r is Ok ==> (r matches Ok(v) && (defines_fresh(
                pre,
                post,
                v,
            ) || (v@ matches AbsVal::Bits(c) && c.width() == 0))),
            _ => r matches Err(e) && e is Type && solver_unchanged(pre, post),
        }
        })
}

/// The contract of [`slice_internal`], as one predicate over the views of its
/// operands and the solver before and after.
pub open spec fn slice_internal_post(bits: AbsVal, from: AbsVal, length: AbsVal, r: Result<Val, ExecError>, pre: Solver, post: Solver) -> bool {
        &&& ({
        post.wf()
        })
        &&& ({
        solver_evolves(pre, post)
        })
        &&& ({
        length matches AbsVal::Symbolic(_) ==> (r matches Err(e) && (e is SymbolicLength || e
            is Type) && solver_unchanged(pre, post))
        })
        &&& ({
        length matches AbsVal::I128(n) ==> match (bits, from) {
            (AbsVal::Bits(b), AbsVal::I128(f)) => if 0 <= f && 0 <= n <= b.width() {
                r matches Ok(v) && (v@ matches AbsVal::Bits(c) && c.wf() && c.width() == n
                    && c.value() as nat == ((b.value() as nat) / pow2(f as nat)) % pow2(n as nat))
                    && solver_unchanged(pre, post)
            } else {
                r matches Err(e) && e is Type && solver_unchanged(pre, post)
            },
            (AbsVal::Bits(b), _) => if b.value() == 0 && 0 <= n <= b.width() {
                r matches Ok(v) && (v@ matches AbsVal::Bits(c) && c.wf() && c.width() == n
                    && c.value() == 0) && solver_unchanged(pre, post)
            } else {
                r is Ok ==> (r matches Ok(v) && (defines_fresh(pre, post, v) || (
                v@ matches AbsVal::Bits(c) && c.width() == 0)))
            },
            (AbsVal::Symbolic(s), _) => match pre.spec_length(s) {
                Some(bl) => if n < 0 || n > bl {
                    r matches Err(e) && e is Type && solver_unchanged(pre, post)
                } else if bl >= 1 {
                    slice_exp_post(bl, Exp::Var(s), from, n as u32, r, pre, post)
                } else if n == 0 && (from is I128 || from is Symbolic) {
                    r matches Ok(v) && (v@ matches AbsVal::Bits(c) && c.width() == 0 && c.value()
                        == 0) && solver_unchanged(pre, post)
                } else {
                    r matches Err(e) && e is Type && solver_unchanged(pre, post)
                },
                None => r matches Err(e) && e is Type && solver_unchanged(pre, post),
            },
            _ => r matches Err(e) && e is Type && solver_unchanged(pre, post),
        }
        })
}

/// The contract of [`subrange_internal`], as one predicate over the views of its
/// operands and the solver before and after.
pub open spec fn subrange_internal_post(bits: AbsVal, high: AbsVal, low: AbsVal, r: Result<Val, ExecError>, pre: Solver, post: Solver) -> bool {
        &&& ({
        post.wf()
        })
        &&& ({
        solver_evolves(pre, post)
        })
        &&& ({
        match (bits, high, low) {
            (AbsVal::Symbolic(s), AbsVal::I128(h), AbsVal::I128(l)) => if 0 <= l <= h
                <= u32::MAX {
                r matches Ok(v) && defines_fresh(pre, post, v) && last_exp(
                    post,
                ) == Exp::Extract(h as u32, l as u32, Box::new(Exp::Var(s)))
            } else {
                r matches Err(e) && e is Type && solver_unchanged(pre, post)
            },
            (AbsVal::Bits(b), AbsVal::I128(h), AbsVal::I128(l)) => if 0 <= l <= h < b.width() {
                r matches Ok(v) && (v@ matches AbsVal::Bits(c) && c.wf() && c.width() == h - l + 1
                    && c.value() as nat == ((b.value() as nat) / pow2(l as nat)) % pow2(
                    (h - l + 1) as nat,
                )) && solver_unchanged(pre, post)
            } else {
                r matches Err(e) && e is Type && solver_unchanged(pre, post)
            },
            (_, _, AbsVal::Symbolic(_)) => r matches Err(e) && e is SymbolicLength
                && solver_unchanged(pre, post),
            (_, AbsVal::Symbolic(_), _) => r matches Err(e) && e is SymbolicLength
                && solver_unchanged(pre, post),
            _ => r matches Err(e) && e is Type && solver_unchanged(pre, post),
        }
        })
}

/// The contract of [`set_slice_internal`], as one predicate over the views of its
/// operands and the solver before and after.
pub open spec fn set_slice_internal_post(bits: AbsVal, n: AbsVal, update: AbsVal, r: Result<Val, ExecError>, pre: Solver, post: Solver) -> bool {
        &&& ({
        post.wf()
        })
        &&& ({
        solver_evolves(pre, post)
        })
        &&& ({
        match (bits, n, update) {
            (AbsVal::Bits(b), AbsVal::I128(m), AbsVal::Bits(u)) => if 0 <= m && m + u.width()
                <= b.width() {
                r matches Ok(v) && (v@ matches AbsVal::Bits(c) && c.wf() && c.width() == b.width()
                    && c.value() as int == crate::bitvector::set_slice_value(
                    b.value() as nat,
                    m as nat,
                    u.width() as nat,
                    u.value() as nat,
                )) && solver_unchanged(pre, post)
            } else {
                r matches Err(e) && e is Type && solver_unchanged(pre, post)
            },
            (AbsVal::Symbolic(s), AbsVal::I128(m), AbsVal::Bits(u)) => if m == 0
                && pre.spec_length(s) == Some(u.width()) {
                // overwriting the full width at offset zero yields the update
                // directly, with no solver call
                r matches Ok(v) && v@ == AbsVal::Bits(u) && solver_unchanged(
                    pre,
                    post,
                )
            } else {
                r is Ok ==> (r matches Ok(v) && (defines_fresh(pre, post, v)
                    || v@ is Bits))
            },
            (AbsVal::Symbolic(_), AbsVal::Symbolic(_), AbsVal::Symbolic(_))
            | (AbsVal::Symbolic(_), AbsVal::Symbolic(_), AbsVal::Bits(_))
            | (AbsVal::Symbolic(_), AbsVal::I128(_), AbsVal::Symbolic(_))
            | (AbsVal::Bits(_), AbsVal::Symbolic(_), AbsVal::Symbolic(_))
            | (AbsVal::Bits(_), AbsVal::Symbolic(_), AbsVal::Bits(_))
            | (AbsVal::Bits(_), AbsVal::I128(_), AbsVal::Symbolic(_)) => r is Ok ==> (r matches Ok(
                v,
            ) && (defines_fresh(pre, post, v) || v@ is Bits)),
            _ => r matches Err(e) && e is Type && solver_unchanged(pre, post),
        }
        })
}

/// The contract of [`op_set_slice`], as one predicate over the views of its
/// operands and the solver before and after.
pub open spec fn op_set_slice_post(bits: AbsVal, n: AbsVal, update: AbsVal, r: Result<Val, ExecError>, pre: Solver, post: Solver) -> bool {
        &&& ({
        post.wf()
        })
        &&& ({
        solver_evolves(pre, post)
        })
        &&& ({
        match (bits, n, update) {
            (AbsVal::Bits(b), AbsVal::I64(m), AbsVal::Bits(u)) => if 0 <= m && m + u.width()
                <= b.width() {
                r matches Ok(v) && (v@ matches AbsVal::Bits(c) && c.wf() && c.width() == b.width()
                    && c.value() as int == crate::bitvector::set_slice_value(
                    b.value() as nat,
                    m as nat,
                    u.width() as nat,
                    u.value() as nat,
                )) && solver_unchanged(pre, post)
            } else {
                r matches Err(e) && e is Type && solver_unchanged(pre, post)
            },
            _ => r is Ok ==> (r matches Ok(v) && (defines_fresh(pre, post, v)
                || v@ is Bits)),
        }
        })
}

/// The contract of [`set_slice_int_internal`], as one predicate over the views of its
/// operands and the solver before and after.
pub open spec fn set_slice_int_internal_post(xint: AbsVal, n: AbsVal, update: AbsVal, r: Result<Val, ExecError>, pre: Solver, post: Solver) -> bool {
        &&& ({
        post.wf()
        })
        &&& ({
        solver_evolves(pre, post)
        })
        &&& ({
        match (xint, n, update) {
            (AbsVal::I128(x), AbsVal::I128(m), AbsVal::Bits(u)) => if 0 <= m && m + u.width()
                <= 128 {
                r matches Ok(v) && (v@ matches AbsVal::I128(c) && (c as int) % (pow2(128) as int)
                    == crate::bitvector::set_slice_int_value(
                    x as int,
                    m as nat,
                    u.width() as nat,
                    u.value() as nat,
                ) % (pow2(128) as int)) && solver_unchanged(pre, post)
            } else {
                r matches Err(e) && e is Type && solver_unchanged(pre, post)
            },
            _ => r is Ok ==> (r matches Ok(v) && (defines_fresh(pre, post, v)
                || v@ is Bits)),
        }
        })
}

/// The contract of [`get_slice_int_internal`], as one predicate over the views of its
/// operands and the solver before and after.
pub open spec fn get_slice_int_internal_post(length: AbsVal, n: AbsVal, from: AbsVal, r: Result<Val, ExecError>, pre: Solver, post: Solver) -> bool {
        &&& ({
        post.wf()
        })
        &&& ({
        solver_evolves(pre, post)
        })
        &&& ({
        match length {
            AbsVal::I128(len) => match (n, from) {
                (AbsVal::I128(x), AbsVal::I128(f)) => if 0 <= len <= MAX_WIDTH && 0 <= f
                    <= u32::MAX {
                    r matches Ok(v) && (v@ matches AbsVal::Bits(c) && c.wf() && c.width() == len
                        && c.value() as int == ((x as int) / (pow2(f as nat) as int)) % (pow2(
                        len as nat,
                    ) as int)) && solver_unchanged(pre, post)
                } else {
                    r is Ok ==> (r matches Ok(v) && (defines_fresh(pre, post, v)
                        || (v@ matches AbsVal::Bits(c) && c.width() == 0)))
                },
                (AbsVal::Symbolic(_), _) => r is Ok ==> (r matches Ok(v) && (defines_fresh(
                    pre,
                    post,
                    v,
                ) || (v@ matches AbsVal::Bits(c) && c.width() == 0))),
                (AbsVal::I128(_), _) => r is Ok ==> (r matches Ok(v) && (defines_fresh(
                    pre,
                    post,
                    v,
                ) || (v@ matches AbsVal::Bits(c) && c.width() == 0))),
                _ => r matches Err(e) && e is Type && solver_unchanged(
                    pre,
                    post,
                ),
            },
            AbsVal::Symbolic(_) => r matches Err(e) && e is SymbolicLength && solver_unchanged(
                pre,
                post,
            ),
            _ => r matches Err(e) && e is Type && solver_unchanged(pre, post),
        }
        })
}

/// The contract of [`vector_access`], as one predicate over the views of its
/// operands and the solver before and after.
pub open spec fn vector_access_post(vec: AbsVal, n: AbsVal, r: Result<Val, ExecError>, pre: Solver, post: Solver) -> bool {
        &&& ({
        post.wf()
        })
        &&& ({
        solver_evolves(pre, post)
        })
        &&& ({
        match (vec, n) {
            (AbsVal::Bits(b), AbsVal::I128(m)) => if 0 <= m < b.width() {
                r matches Ok(v) && (v@ matches AbsVal::Bits(c) && c.wf() && c.width() == 1
                    && c.value() as nat == ((b.value() as nat) / pow2(m as nat)) % 2)
                    && solver_unchanged(pre, post)
            } else {
                r matches Err(e) && e is Type && solver_unchanged(pre, post)
            },
            (AbsVal::Vector(items), AbsVal::I128(m)) => if 0 <= m < items.len() {
                r matches Ok(v) && v@ == items[m as int] && solver_unchanged(
                    pre,
                    post,
                )
            } else {
                r matches Err(e) && e is OutOfBounds && solver_unchanged(
                    pre,
                    post,
                )
            },
            (AbsVal::Symbolic(s), AbsVal::Symbolic(_)) | (AbsVal::Symbolic(s), AbsVal::I128(_)) =>
                match pre.spec_length(s) {
                Some(len) => if len > 0 {
                    r matches Ok(v) && defines_fresh(pre, post, v)
                } else {
                    r matches Err(e) && e is Type && solver_unchanged(pre, post)
                },
                None => r matches Err(e) && e is Type && solver_unchanged(
                    pre,
                    post,
                ),
            },
            (AbsVal::Bits(b), AbsVal::Symbolic(_)) => if b.width() > 0 {
                r matches Ok(v) && defines_fresh(pre, post, v)
            } else {
                r matches Err(e) && e is Type && solver_unchanged(pre, post)
            },
            _ => r matches Err(e) && e is Type && solver_unchanged(pre, post),
        }
        })
}

/// The contract of [`count_leading_zeros`], as one predicate over the views of its
/// operands and the solver before and after.
pub open spec fn count_leading_zeros_post(bv: AbsVal, r: Result<Val, ExecError>, pre: Solver, post: Solver) -> bool {
        &&& ({
        post.wf()
        })
        &&& ({
        solver_evolves(pre, post)
        })
        &&& ({
        match bv {
            AbsVal::Bits(b) => r matches Ok(v) && v@ == AbsVal::I128(
                crate::bitvector::clz_value(b.value() as nat, b.width() as nat) as i128,
            ) && solver_unchanged(pre, post),
            AbsVal::Symbolic(s) => match pre.spec_length(s) {
                Some(len) => if 0 < len <= 128 {
                    r matches Ok(v) && (v@ matches AbsVal::Symbolic(q) && q < post.next_sym()
                        && clz_segment(
                        post.trace(),
                        pre.trace().len() as int,
                        post.trace().len() as int,
                        s,
                        len,
                        q,
                    ))
                } else {
                    r matches Err(e) && e is Type && solver_unchanged(pre, post)
                },
                None => r matches Err(e) && e is Type && solver_unchanged(
                    pre,
                    post,
                ),
            },
            _ => r matches Err(e) && e is Type && solver_unchanged(pre, post),
        }
        })
}

/// The contract of [`align_bits`], as one predicate over the views of its
/// operands and the solver before and after.
pub open spec fn align_bits_post(bv: AbsVal, alignment: AbsVal, r: Result<Val, ExecError>, pre: Solver, post: Solver) -> bool {
        &&& ({
        post.wf()
        })
        &&& ({
        solver_evolves(pre, post)
        })
        &&& ({
        match (bv, alignment) {
            (AbsVal::Bits(b), AbsVal::I128(a)) => if a > 0 && b.width() <= 64 {
                r matches Ok(v) && (v@ matches AbsVal::Bits(c) && c.wf() && c.width() == b.width()
                    && c.value() as int == ((a as int) * ((b.value() as int) / (a as int))) % (
                pow2(b.width() as nat) as int)) && solver_unchanged(pre, post)
            } else {
                r is Err ==> solver_unchanged(pre, post)
            },
            (AbsVal::Symbolic(_), AbsVal::I128(_)) => r is Ok ==> (r matches Ok(v) && (v@
                is Symbolic || v@ is Bits)),
            _ => r is Err ==> post.events() == pre.events(),
        }
        })
}

} // verus!
