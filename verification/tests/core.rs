use isla_lib::bitvector::Sbits;
use isla_lib::error::ExecError;
use isla_lib::frame::LocalFrame;
use isla_lib::primop;
use isla_lib::primop_bits;
use isla_lib::primop_misc;
use isla_lib::registry;
use isla_lib::smt::{Solver, SmtResult};
use isla_lib::value::Val;
use isla_lib::ast::{Def, Instr, Loc, Ty, Symtab, SharedState};

fn fresh_solver() -> Solver {
    Solver::new()
}

#[test]
fn bits_unsigned_is_modulo() {
    // the constructor masks to the width: 0x1FF mod 2^8 = 0xFF
    let b = Sbits::new(0x1FF, 8);
    assert_eq!(b.unsigned(), 0xFF);
    assert_eq!(b.len(), 8);
    // a full 64-bit value survives untouched
    let c = Sbits::from_u64(0xDEAD_BEEF_0000_0001);
    assert_eq!(c.unsigned() as u64, 0xDEAD_BEEF_0000_0001);
}

#[test]
fn bits_signed_is_sign_extended() {
    assert_eq!(Sbits::new(0xFF, 8).signed(), -1);
    assert_eq!(Sbits::new(0x7F, 8).signed(), 0x7F);
    assert_eq!(Sbits::new(0x80, 8).signed(), -128);
    assert_eq!(Sbits::new(0, 0).signed(), 0);
}

#[test]
fn bits_arithmetic() {
    let a = Sbits::new(0xF0, 8);
    let b = Sbits::new(0x20, 8);
    assert_eq!(a.add(b).unsigned(), 0x10); // wraps mod 256
    assert_eq!(a.sub(b).unsigned(), 0xD0);
    assert_eq!(a.bitxor(b).unsigned(), 0xD0);
    assert_eq!(a.bitand(b).unsigned(), 0x20);
    assert_eq!(a.bitor(b).unsigned(), 0xF0);
    assert_eq!(a.bitnot().unsigned(), 0x0F);
}

#[test]
fn bits_shifts_and_slices() {
    let a = Sbits::new(0xABCD, 16);
    assert_eq!(a.shiftr(4).unsigned(), 0x0ABC);
    assert_eq!(a.shiftl(4).unsigned(), 0xBCD0);
    assert_eq!(a.slice(4, 8).unwrap().unsigned(), 0xBC);
    assert_eq!(a.extract(7, 4).unwrap().unsigned(), 0xC);
    let hi = Sbits::new(0xAB, 8);
    let lo = Sbits::new(0xCD, 8);
    assert_eq!(hi.append(lo).unwrap().unsigned(), 0xABCD);
    assert_eq!(a.arith_shiftr(4).unsigned(), 0xFABC);
}

#[test]
fn bits_leading_zeros() {
    assert_eq!(Sbits::new(1, 8).leading_zeros(), 7);
    assert_eq!(Sbits::new(0, 8).leading_zeros(), 8);
    assert_eq!(Sbits::new(0x80, 8).leading_zeros(), 0);
    assert_eq!(Sbits::from_u64(1).leading_zeros(), 63);
}

#[test]
fn zero_extend_to_own_length_is_identity() {
    // widening to the current width changes nothing
    let a = Sbits::new(0x5A, 8);
    let b = a.zero_extend(8);
    assert_eq!(b.len(), 8);
    assert_eq!(b.unsigned(), 0x5A);
    let mut solver = fresh_solver();
    let before = solver.trace_len();
    let r = primop_bits::zero_extend(Val::Bits(a), Val::I128(8), &mut solver).unwrap();
    match r {
        Val::Bits(c) => {
            assert_eq!(c.unsigned(), 0x5A);
            assert_eq!(c.len(), 8);
        }
        other => panic!("expected a concrete bit vector, got {:?}", other),
    }
    assert_eq!(solver.trace_len(), before);
}

#[test]
fn slice_of_full_width_is_identity() {
    let a = Sbits::new(0x5A, 8);
    let mut solver = fresh_solver();
    let r = primop_bits::op_slice(Val::Bits(a), Val::I64(0), 8, &mut solver).unwrap();
    match r {
        Val::Bits(c) => assert_eq!(c.unsigned(), 0x5A),
        other => panic!("expected a concrete bit vector, got {:?}", other),
    }
}

#[test]
fn set_slice_of_full_width_is_update() {
    let a = Sbits::new(0x5A, 8);
    let u = Sbits::new(0xC3, 8);
    let mut solver = fresh_solver();
    let r = primop_bits::set_slice_internal(
        Val::Bits(a),
        Val::I128(0),
        Val::Bits(u),
        &mut solver,
    )
    .unwrap();
    match r {
        Val::Bits(c) => {
            assert_eq!(c.unsigned(), 0xC3);
            assert_eq!(c.len(), 8);
        }
        other => panic!("expected a concrete bit vector, got {:?}", other),
    }
}

#[test]
fn op_slice_concrete_and_zero_shortcircuit() {
    let mut solver = fresh_solver();
    // a concrete slice: bits 4..12 of 0xABCD are 0xBC
    let r = primop_bits::op_slice(
        Val::Bits(Sbits::new(0xABCD, 16)),
        Val::I64(4),
        8,
        &mut solver,
    )
    .unwrap();
    match r {
        Val::Bits(c) => {
            assert_eq!(c.unsigned(), 0xBC);
            assert_eq!(c.len(), 8);
        }
        other => panic!("expected a concrete bit vector, got {:?}", other),
    }
    // slicing an all-zeros vector at a symbolic position stays concrete and
    // consults the solver not at all
    let v = solver.fresh();
    let before = solver.trace_len();
    let r = primop_bits::op_slice(
        Val::Bits(Sbits::from_u64(0)),
        Val::Symbolic(v),
        4,
        &mut solver,
    )
    .unwrap();
    match r {
        Val::Bits(c) => {
            assert_eq!(c.unsigned(), 0);
            assert_eq!(c.len(), 4);
        }
        other => panic!("expected a concrete bit vector, got {:?}", other),
    }
    assert_eq!(solver.trace_len(), before);
}

#[test]
fn add_int_with_zero_returns_symbol_unchanged() {
    let mut solver = fresh_solver();
    let v = solver.fresh();
    let before = solver.trace_len();
    let r = primop::add_int(Val::Symbolic(v), Val::I128(0), &mut solver).unwrap();
    match r {
        Val::Symbolic(s) => assert_eq!(s, v),
        other => panic!("expected the symbol back, got {:?}", other),
    }
    assert_eq!(solver.trace_len(), before);
}

#[test]
fn align_bits_fast_path() {
    let mut solver = fresh_solver();
    let r = primop_bits::align_bits(
        Val::Bits(Sbits::new(0x1234, 16)),
        Val::I128(16),
        &mut solver,
    )
    .unwrap();
    match r {
        Val::Bits(c) => {
            assert_eq!(c.unsigned(), 0x1230);
            assert_eq!(c.len(), 16);
        }
        other => panic!("expected a concrete bit vector, got {:?}", other),
    }
}

#[test]
fn integer_arithmetic_primops() {
    let mut solver = fresh_solver();
    match primop::mult_int(Val::I128(6), Val::I128(7), &mut solver).unwrap() {
        Val::I128(n) => assert_eq!(n, 42),
        other => panic!("unexpected {:?}", other),
    }
    match primop::tdiv_int(Val::I128(-7), Val::I128(2), &mut solver).unwrap() {
        Val::I128(n) => assert_eq!(n, -3), // truncating division
        other => panic!("unexpected {:?}", other),
    }
    match primop::tmod_int(Val::I128(-7), Val::I128(2), &mut solver).unwrap() {
        Val::I128(n) => assert_eq!(n, -1),
        other => panic!("unexpected {:?}", other),
    }
    match primop::pow_int(Val::I128(3), Val::I128(4), &mut solver).unwrap() {
        Val::I128(n) => assert_eq!(n, 81),
        other => panic!("unexpected {:?}", other),
    }
    match primop::pow_int(Val::I128(2), Val::I128(-1), &mut solver) {
        Err(ExecError::Overflow) => {}
        other => panic!("expected overflow, got {:?}", other),
    }
}

#[test]
fn count_leading_zeros_concrete() {
    let mut solver = fresh_solver();
    match primop_bits::count_leading_zeros(Val::Bits(Sbits::new(1, 32)), &mut solver).unwrap() {
        Val::I128(n) => assert_eq!(n, 31),
        other => panic!("unexpected {:?}", other),
    }
}

#[test]
fn error_variants_surface() {
    let mut solver = fresh_solver();
    // a shape error names the operation kind
    match primop::add_int(Val::Bool(true), Val::Bool(false), &mut solver) {
        Err(ExecError::Type(_)) => {}
        other => panic!("expected a type error, got {:?}", other),
    }
    // narrowing an oversized integer overflows
    match primop::i128_to_i64(Val::I128(i64::MAX as i128 + 1), &mut solver) {
        Err(ExecError::Overflow) => {}
        other => panic!("expected overflow, got {:?}", other),
    }
    // a symbolic length is rejected
    let v = solver.fresh();
    match primop_bits::zeros(Val::Symbolic(v), &mut solver) {
        Err(ExecError::SymbolicLength(_)) => {}
        other => panic!("expected symbolic length, got {:?}", other),
    }
    // a vector access past the end
    match primop_bits::vector_access(
        Val::Vector(vec![Val::I128(1)]),
        Val::I128(5),
        &mut solver,
    ) {
        Err(ExecError::OutOfBounds(_)) => {}
        other => panic!("expected out of bounds, got {:?}", other),
    }
    // a failing concrete assertion carries the message
    match primop::optimistic_assert(
        Val::Bool(false),
        Val::String("boom".to_string()),
        &mut solver,
    ) {
        Err(ExecError::AssertionFailed(m)) => assert_eq!(m, "boom"),
        other => panic!("expected assertion failure, got {:?}", other),
    }
    // the explicit bad accesses
    match primop_misc::bad_read(Val::Unit, &mut solver) {
        Err(ExecError::BadRead(_)) => {}
        other => panic!("expected bad read, got {:?}", other),
    }
    match primop_misc::bad_write(Val::Unit, &mut solver) {
        Err(ExecError::BadWrite(_)) => {}
        other => panic!("expected bad write, got {:?}", other),
    }
    // the ELF entry before it exists
    let mut frame = LocalFrame::new(0);
    match primop_misc::elf_entry(vec![], &mut solver, &mut frame) {
        Err(ExecError::NoElfEntry) => {}
        other => panic!("expected no ELF entry, got {:?}", other),
    }
    // the real-number operations are unimplemented
    match primop_misc::unimplemented(vec![], &mut solver, &mut frame) {
        Err(ExecError::Unimplemented) => {}
        other => panic!("expected unimplemented, got {:?}", other),
    }
    // a symbolic satisfiability check without a queued verdict
    let v = solver.fresh();
    match primop::optimistic_assert(
        Val::Symbolic(v),
        Val::String("msg".to_string()),
        &mut solver,
    ) {
        Err(ExecError::SolverUnknown) => {}
        other => panic!("expected an unknown verdict, got {:?}", other),
    }
}

#[test]
fn assertion_verdicts_follow_the_queue() {
    let mut solver = fresh_solver();
    let v = solver.fresh();
    solver.push_sat_answer(SmtResult::Sat);
    let before = solver.trace_len();
    match primop::optimistic_assert(
        Val::Symbolic(v),
        Val::String("msg".to_string()),
        &mut solver,
    ) {
        Ok(Val::Unit) => {}
        other => panic!("expected success, got {:?}", other),
    }
    // the condition was asserted to the trace
    assert_eq!(solver.trace_len(), before + 1);
    let w = solver.fresh();
    solver.push_sat_answer(SmtResult::Sat);
    match primop::pessimistic_assert(
        Val::Symbolic(w),
        Val::String("can fail".to_string()),
        &mut solver,
    ) {
        Err(ExecError::AssertionFailed(m)) => assert_eq!(m, "can fail"),
        other => panic!("expected assertion failure, got {:?}", other),
    }
}

#[test]
fn string_primops() {
    let mut solver = fresh_solver();
    match primop_misc::hex_str(Val::I128(0x1234), &mut solver).unwrap() {
        Val::String(s) => assert_eq!(s, "0x1234"),
        other => panic!("unexpected {:?}", other),
    }
    match primop_misc::dec_str(Val::I128(-42), &mut solver).unwrap() {
        Val::String(s) => assert_eq!(s, "-42"),
        other => panic!("unexpected {:?}", other),
    }
    match primop_misc::string_to_i128(Val::String("-170141183460469231731687303715884105728".to_string()), &mut solver)
        .unwrap()
    {
        Val::I128(n) => assert_eq!(n, i128::MIN),
        other => panic!("unexpected {:?}", other),
    }
    match primop_misc::string_to_i128(Val::String("12x".to_string()), &mut solver) {
        Err(ExecError::Overflow) => {}
        other => panic!("expected overflow, got {:?}", other),
    }
    match primop_misc::string_of_bits(Val::Bits(Sbits::new(0xAB, 8)), &mut solver).unwrap() {
        Val::String(s) => assert_eq!(s, "#xab"),
        other => panic!("unexpected {:?}", other),
    }
    match primop_misc::string_of_bits(Val::Bits(Sbits::new(0b101, 3)), &mut solver).unwrap() {
        Val::String(s) => assert_eq!(s, "#b101"),
        other => panic!("unexpected {:?}", other),
    }
    match primop_misc::string_startswith(
        Val::String("hello".to_string()),
        Val::String("he".to_string()),
        &mut solver,
    )
    .unwrap()
    {
        Val::Bool(b) => assert!(b),
        other => panic!("unexpected {:?}", other),
    }
}

#[test]
fn list_primops() {
    let mut solver = fresh_solver();
    let l = primop_misc::cons(Val::I128(1), Val::Poison, &mut solver).unwrap();
    let l = primop_misc::cons(Val::I128(2), l, &mut solver).unwrap();
    match primop::op_head(
        match &l {
            Val::List(items) => Val::List(items.clone()),
            _ => panic!("not a list"),
        },
        &mut solver,
    )
    .unwrap()
    {
        Val::I128(n) => assert_eq!(n, 2),
        other => panic!("unexpected {:?}", other),
    }
    match primop::op_tail(l, &mut solver).unwrap() {
        Val::List(items) => assert_eq!(items.len(), 1),
        other => panic!("unexpected {:?}", other),
    }
    // the legacy list equality: only empty lists compare equal
    match primop::op_eq(Val::List(vec![]), Val::List(vec![]), &mut solver).unwrap() {
        Val::Bool(b) => assert!(b),
        other => panic!("unexpected {:?}", other),
    }
    match primop::op_eq(
        Val::List(vec![Val::I128(1)]),
        Val::List(vec![Val::I128(1)]),
        &mut solver,
    ) {
        Err(ExecError::Type(_)) => {}
        other => panic!("expected a type error, got {:?}", other),
    }
}

#[test]
fn memory_facade_records_events() {
    let mut solver = fresh_solver();
    let mut frame = LocalFrame::new(0);
    let before = solver.events_len();
    let r = frame
        .memory_mut()
        .read(
            Val::Unit,
            Val::Bits(Sbits::from_u64(0x1000)),
            Val::I128(4),
            &mut solver,
            false,
        )
        .unwrap();
    match r {
        Val::Symbolic(_) => {}
        other => panic!("expected a fresh symbol, got {:?}", other),
    }
    assert_eq!(solver.events_len(), before + 1);
}

#[test]
fn registry_lookups_and_dispatch() {
    let prims = registry::Primops::new();
    assert_eq!(
        prims.lookup_binary(&"add_int".to_string()),
        Some(registry::BinaryOp::AddInt)
    );
    assert_eq!(
        prims.lookup_unary(&"count_leading_zeros".to_string()),
        Some(registry::UnaryOp::CountLeadingZeros)
    );
    assert_eq!(
        prims.lookup_variadic(&"set_slice".to_string()),
        Some(registry::VariadicOp::SetSlice)
    );
    assert_eq!(prims.lookup_unary(&"no_such_primop".to_string()), None);
    let mut solver = fresh_solver();
    let r = registry::call_binary(
        &registry::BinaryOp::AddInt,
        Val::I128(40),
        Val::I128(2),
        &mut solver,
    )
    .unwrap();
    match r {
        Val::I128(n) => assert_eq!(n, 42),
        other => panic!("unexpected {:?}", other),
    }
}

#[test]
fn insert_primops_rewrites_and_is_idempotent() {
    // a signature-only function f and a function g that calls it
    let mut defs: Vec<Def<u32>> = vec![
        Def::Val(10, vec![Ty::Lint], Ty::Lint),
        Def::Val(11, vec![Ty::Lint], Ty::Lint),
        Def::Fn(
            11,
            vec![1],
            vec![
                Instr::Call(Loc::Id(0), false, 10, vec![]),
                Instr::End,
            ],
        ),
    ];
    let prims = isla_lib::ast::insert_primops(&mut defs);
    assert_eq!(prims, vec![10]);
    let first = format!("{:?}", defs);
    match &defs[2] {
        Def::Fn(_, _, body) => match &body[0] {
            Instr::Primop(_, f, _) => assert_eq!(*f, 10),
            other => panic!("expected a primop instruction, got {:?}", other),
        },
        other => panic!("expected the function, got {:?}", other),
    }
    // a second run changes nothing
    let prims2 = isla_lib::ast::insert_primops(&mut defs);
    assert_eq!(prims2, vec![10]);
    assert_eq!(format!("{:?}", defs), first);
}

#[test]
fn symtab_interning() {
    let mut symtab = Symtab::new();
    let a = symtab.intern("zX0".to_string());
    let b = symtab.intern("zX1".to_string());
    let a2 = symtab.intern("zX0".to_string());
    assert_eq!(a, a2);
    assert_ne!(a, b);
    assert_eq!(symtab.to_str(a), "zX0");
    assert_eq!(symtab.lookup("zX1"), b);
    assert_eq!(symtab.get("missing"), None);
}

#[test]
fn zencode_encodes_names() {
    assert_eq!(isla_lib::zencode::encode("X0"), "zX0");
    assert_eq!(isla_lib::zencode::encode("z"), "zzz");
    assert_eq!(isla_lib::zencode::encode("a.b"), "zaz2eb");
}

#[test]
fn vector_update_concrete() {
    let mut solver = fresh_solver();
    let mut frame = LocalFrame::new(0);
    let r = registry::vector_update(
        vec![
            Val::Vector(vec![Val::I128(1), Val::I128(2)]),
            Val::I128(1),
            Val::I128(9),
        ],
        &mut solver,
        &mut frame,
    )
    .unwrap();
    match r {
        Val::Vector(items) => match items[1] {
            Val::I128(n) => assert_eq!(n, 9),
            ref other => panic!("unexpected {:?}", other),
        },
        other => panic!("unexpected {:?}", other),
    }
}

#[test]
fn get_slice_int_concrete() {
    let mut solver = fresh_solver();
    match registry::get_slice_int(
        vec![Val::I128(8), Val::I128(0x1234), Val::I128(4)],
        &mut solver,
        &mut LocalFrame::new(0),
    )
    .unwrap()
    {
        Val::Bits(c) => {
            assert_eq!(c.unsigned(), 0x23);
            assert_eq!(c.len(), 8);
        }
        other => panic!("unexpected {:?}", other),
    }
    // a negative integer exposes its two's complement bits
    match registry::get_slice_int(
        vec![Val::I128(8), Val::I128(-1), Val::I128(0)],
        &mut solver,
        &mut LocalFrame::new(0),
    )
    .unwrap()
    {
        Val::Bits(c) => assert_eq!(c.unsigned(), 0xFF),
        other => panic!("unexpected {:?}", other),
    }
}

#[test]
fn subrange_and_replicate() {
    let mut solver = fresh_solver();
    let mut frame = LocalFrame::new(0);
    match registry::subrange(
        vec![Val::Bits(Sbits::new(0xABCD, 16)), Val::I128(11), Val::I128(4)],
        &mut solver,
        &mut frame,
    )
    .unwrap()
    {
        Val::Bits(c) => {
            assert_eq!(c.unsigned(), 0xBC);
            assert_eq!(c.len(), 8);
        }
        other => panic!("unexpected {:?}", other),
    }
    match primop_bits::replicate_bits(
        Val::Bits(Sbits::new(0xA, 4)),
        Val::I128(3),
        &mut solver,
    )
    .unwrap()
    {
        Val::Bits(c) => {
            assert_eq!(c.unsigned(), 0xAAA);
            assert_eq!(c.len(), 12);
        }
        other => panic!("unexpected {:?}", other),
    }
}

#[test]
fn set_slice_middle_bits() {
    let mut solver = fresh_solver();
    let mut frame = LocalFrame::new(0);
    // overwrite bits 4..8 of 0xA0F5 with 0xC
    match registry::set_slice(
        vec![
            Val::Unit,
            Val::Unit,
            Val::Bits(Sbits::new(0xA0F5, 16)),
            Val::I128(4),
            Val::Bits(Sbits::new(0xC, 4)),
        ],
        &mut solver,
        &mut frame,
    )
    .unwrap()
    {
        Val::Bits(c) => {
            assert_eq!(c.unsigned(), 0xA0C5);
            assert_eq!(c.len(), 16);
        }
        other => panic!("unexpected {:?}", other),
    }
}

#[test]
fn truncate_keeps_ends() {
    let mut solver = fresh_solver();
    match primop_bits::sail_truncate(
        Val::Bits(Sbits::new(0xABCD, 16)),
        Val::I128(8),
        &mut solver,
    )
    .unwrap()
    {
        Val::Bits(c) => assert_eq!(c.unsigned(), 0xCD),
        other => panic!("unexpected {:?}", other),
    }
    match primop_bits::sail_truncate_lsb(
        Val::Bits(Sbits::new(0xABCD, 16)),
        Val::I128(8),
        &mut solver,
    )
    .unwrap()
    {
        Val::Bits(c) => assert_eq!(c.unsigned(), 0xAB),
        other => panic!("unexpected {:?}", other),
    }
}

#[test]
fn symbolic_operations_define_constants() {
    let mut solver = fresh_solver();
    let v = solver.fresh();
    let before = solver.trace_len();
    // adding a nonzero constant to a symbol defines one new constant
    match primop::add_int(Val::Symbolic(v), Val::I128(5), &mut solver).unwrap() {
        Val::Symbolic(s) => assert_ne!(s, v),
        other => panic!("unexpected {:?}", other),
    }
    assert_eq!(solver.trace_len(), before + 1);
}

#[test]
fn shared_state_indexes_functions() {
    let defs: Vec<Def<u32>> = vec![
        Def::Val(10, vec![Ty::Lint], Ty::Lint),
        Def::Val(11, vec![Ty::Lint], Ty::Lint),
        Def::Fn(11, vec![1], vec![Instr::End]),
    ];
    let shared = SharedState::new(Symtab::new(), defs, vec![10]);
    assert_eq!(shared.get_function(11), Some(2));
    assert_eq!(shared.get_function(10), None);
    assert!(shared.is_primop(10));
    assert!(!shared.is_primop(11));
    assert!(shared.has_function(11));
}

#[test]
fn real_primops_are_unimplemented() {
    let prims = registry::Primops::new();
    assert_eq!(
        prims.lookup_variadic(&"%string->%real".to_string()),
        Some(registry::VariadicOp::Unimplemented)
    );
    assert_eq!(
        prims.lookup_variadic(&"undefined_real".to_string()),
        Some(registry::VariadicOp::Unimplemented)
    );
    assert_eq!(prims.lookup_unary(&"%string->%real".to_string()), None);
    assert_eq!(prims.lookup_unary(&"undefined_real".to_string()), None);
    assert_eq!(prims.lookup_binary(&"gteq_int".to_string()), None);
    assert_eq!(
        prims.lookup_binary(&"gteq".to_string()),
        Some(registry::BinaryOp::GteqInt)
    );
    let mut solver = fresh_solver();
    let mut frame = LocalFrame::new(0);
    let r = registry::call_variadic(
        &registry::VariadicOp::Unimplemented,
        vec![Val::Unit],
        &mut solver,
        &mut frame,
    );
    match r {
        Err(ExecError::Unimplemented) => {},
        other => panic!("expected an unimplemented failure, got {:?}", other),
    }
}

#[test]
fn eq_anything_structs_short_circuit() {
    let mut solver = fresh_solver();
    let a = Val::Struct(vec![(1, Val::Bool(true)), (2, Val::I128(7))]);
    let b = Val::Struct(vec![(1, Val::Bool(false)), (2, Val::I128(7))]);
    match primop::eq_anything(&a, &b, &mut solver) {
        Ok(Val::Bool(false)) => {},
        other => panic!("expected concretely-unequal structs, got {:?}", other),
    }
    let c = Val::Struct(vec![(1, Val::Bool(true)), (2, Val::I128(7))]);
    match primop::eq_anything(&a, &c, &mut solver) {
        Ok(Val::Bool(true)) => {},
        other => panic!("expected concretely-equal structs, got {:?}", other),
    }
}
