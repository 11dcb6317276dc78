//! The primop registry: three tables from the textual IR names of the
//! primitive operations to operation tags, and the dispatchers that run a
//! tagged operation. The tables are built once at startup; an IR primop
//! whose name is in no table must fail at setup, which
//! [`Primops::check_resolved`] decides.

use vstd::prelude::*;
use crate::error::ExecError;
use crate::frame::LocalFrame;
use crate::smt::{Solver, Def, Exp};
use crate::value::{Val, AbsVal, abs_wf, clone_val, vals_view};
use crate::primop;
use crate::primop_bits;
use crate::primop_misc;
use crate::ast::SharedState;

verus! {

/// The unary operations.
#[derive(Clone, Copy, Debug, PartialEq, Eq, Structural)]
pub enum UnaryOp {
    I64ToI128,
    I128ToI64,
    StringToI128,
    BitToBool,
    AssumeProp,
    NotBool,
    NegInt,
    AbsInt,
    Pow2,
    NotBits,
    Length,
    Zeros,
    Ones,
    SailUnsigned,
    SailSigned,
    Putchar,
    Print,
    Prerr,
    PrintEndline,
    PrerrEndline,
    CountLeadingZeros,
    UndefinedBitvector,
    UndefinedBool,
    UndefinedInt,
    UndefinedNat,
    UndefinedUnit,
    UndefinedString,
    OneIf,
    ZeroIf,
    Choice,
    BadRead,
    BadWrite,
    HexStr,
    DecStr,
    StringLength,
    StringOfBits,
    DecimalStringOfBits,
    StringOfInt,
    CycleCount,
    GetCycleCount,
    GetVerbosity,
    Sleeping,
    SleepRequest,
    WakeupRequest,
    InstrAnnounce,
    Barrier,
    Monomorphize,
}

/// The binary operations.
#[derive(Clone, Copy, Debug, PartialEq, Eq, Structural)]
pub enum BinaryOp {
    OptimisticAssert,
    PessimisticAssert,
    AndBool,
    OrBool,
    EqInt,
    EqBool,
    LteqInt,
    GteqInt,
    LtInt,
    GtInt,
    AddInt,
    SubInt,
    SubNat,
    MultInt,
    TdivInt,
    TmodInt,
    PowInt,
    ShlInt,
    ShrInt,
    ShlMachInt,
    ShrMachInt,
    MaxInt,
    MinInt,
    EqBits,
    NeqBits,
    XorBits,
    OrBits,
    AndBits,
    AddBits,
    SubBits,
    AddBitsInt,
    SubBitsInt,
    AlignBits,
    UndefinedRange,
    ZeroExtend,
    SignExtend,
    SailTruncate,
    SailTruncateLsb,
    ReplicateBits,
    Shiftr,
    Shiftl,
    ArithShiftr,
    ShiftBitsRight,
    ShiftBitsLeft,
    Append,
    VectorAccess,
    EqAnything,
    EqString,
    ConcatStr,
    StringStartswith,
    StringDrop,
    StringTake,
    Cons,
    UndefinedVector,
    PrintString,
    PrerrString,
    PrintInt,
    PrerrInt,
    PrintBits,
    PrerrBits,
    BranchAnnounce,
    MarkRegister,
    OpEq,
    OpNeq,
}

/// The variadic operations.
#[derive(Clone, Copy, Debug, PartialEq, Eq, Structural)]
pub enum VariadicOp {
    Slice,
    VectorSubrange,
    VectorUpdate,
    VectorUpdateSubrange,
    BitvectorUpdate,
    SetSlice,
    GetSliceInt,
    SetSliceInt,
    ReadMem,
    ReadMemt,
    WriteMem,
    WriteMemt,
    WriteMemEa,
    CacheMaintenance,
    ElfEntry,
    Ite,
    MarkRegisterPair,
    Unimplemented,
}

/// The name-to-tag table of the unary primops.
#[verifier::rlimit(100)]
#[verifier::spinoff_prover]
pub fn unary_primops() -> (r: Vec<(String, UnaryOp)>)
    ensures
        r@.len() == 47,
        r@[0].0@ == "%i64->%i"@ && r@[0].1 == UnaryOp::I64ToI128,
        r@[1].0@ == "%i->%i64"@ && r@[1].1 == UnaryOp::I128ToI64,
        r@[2].0@ == "%string->%i"@ && r@[2].1 == UnaryOp::StringToI128,
        r@[3].0@ == "bit_to_bool"@ && r@[3].1 == UnaryOp::BitToBool,
        r@[4].0@ == "assume"@ && r@[4].1 == UnaryOp::AssumeProp,
        r@[5].0@ == "not"@ && r@[5].1 == UnaryOp::NotBool,
        r@[6].0@ == "neg_int"@ && r@[6].1 == UnaryOp::NegInt,
        r@[7].0@ == "abs_int"@ && r@[7].1 == UnaryOp::AbsInt,
        r@[8].0@ == "pow2"@ && r@[8].1 == UnaryOp::Pow2,
        r@[9].0@ == "not_bits"@ && r@[9].1 == UnaryOp::NotBits,
        r@[10].0@ == "length"@ && r@[10].1 == UnaryOp::Length,
        r@[11].0@ == "zeros"@ && r@[11].1 == UnaryOp::Zeros,
        r@[12].0@ == "ones"@ && r@[12].1 == UnaryOp::Ones,
        r@[13].0@ == "sail_unsigned"@ && r@[13].1 == UnaryOp::SailUnsigned,
        r@[14].0@ == "sail_signed"@ && r@[14].1 == UnaryOp::SailSigned,
        r@[15].0@ == "sail_putchar"@ && r@[15].1 == UnaryOp::Putchar,
        r@[16].0@ == "print"@ && r@[16].1 == UnaryOp::Print,
        r@[17].0@ == "prerr"@ && r@[17].1 == UnaryOp::Prerr,
        r@[18].0@ == "print_endline"@ && r@[18].1 == UnaryOp::PrintEndline,
        r@[19].0@ == "prerr_endline"@ && r@[19].1 == UnaryOp::PrerrEndline,
        r@[20].0@ == "count_leading_zeros"@ && r@[20].1 == UnaryOp::CountLeadingZeros,
        r@[21].0@ == "undefined_bitvector"@ && r@[21].1 == UnaryOp::UndefinedBitvector,
        r@[22].0@ == "undefined_bool"@ && r@[22].1 == UnaryOp::UndefinedBool,
        r@[23].0@ == "undefined_int"@ && r@[23].1 == UnaryOp::UndefinedInt,
        r@[24].0@ == "undefined_nat"@ && r@[24].1 == UnaryOp::UndefinedNat,
        r@[25].0@ == "undefined_unit"@ && r@[25].1 == UnaryOp::UndefinedUnit,
        r@[26].0@ == "undefined_string"@ && r@[26].1 == UnaryOp::UndefinedString,
        r@[27].0@ == "one_if"@ && r@[27].1 == UnaryOp::OneIf,
        r@[28].0@ == "zero_if"@ && r@[28].1 == UnaryOp::ZeroIf,
        r@[29].0@ == "internal_pick"@ && r@[29].1 == UnaryOp::Choice,
        r@[30].0@ == "bad_read"@ && r@[30].1 == UnaryOp::BadRead,
        r@[31].0@ == "bad_write"@ && r@[31].1 == UnaryOp::BadWrite,
        r@[32].0@ == "hex_str"@ && r@[32].1 == UnaryOp::HexStr,
        r@[33].0@ == "dec_str"@ && r@[33].1 == UnaryOp::DecStr,
        r@[34].0@ == "string_length"@ && r@[34].1 == UnaryOp::StringLength,
        r@[35].0@ == "string_of_bits"@ && r@[35].1 == UnaryOp::StringOfBits,
        r@[36].0@ == "decimal_string_of_bits"@ && r@[36].1 == UnaryOp::DecimalStringOfBits,
        r@[37].0@ == "string_of_int"@ && r@[37].1 == UnaryOp::StringOfInt,
        r@[38].0@ == "cycle_count"@ && r@[38].1 == UnaryOp::CycleCount,
        r@[39].0@ == "get_cycle_count"@ && r@[39].1 == UnaryOp::GetCycleCount,
        r@[40].0@ == "sail_get_verbosity"@ && r@[40].1 == UnaryOp::GetVerbosity,
        r@[41].0@ == "sleeping"@ && r@[41].1 == UnaryOp::Sleeping,
        r@[42].0@ == "sleep_request"@ && r@[42].1 == UnaryOp::SleepRequest,
        r@[43].0@ == "wakeup_request"@ && r@[43].1 == UnaryOp::WakeupRequest,
        r@[44].0@ == "platform_instr_announce"@ && r@[44].1 == UnaryOp::InstrAnnounce,
        r@[45].0@ == "platform_barrier"@ && r@[45].1 == UnaryOp::Barrier,
        r@[46].0@ == "monomorphize"@ && r@[46].1 == UnaryOp::Monomorphize,
{
    let mut t: Vec<(String, UnaryOp)> = Vec::new();
    t.push(("%i64->%i".to_owned(), UnaryOp::I64ToI128));
    t.push(("%i->%i64".to_owned(), UnaryOp::I128ToI64));
    t.push(("%string->%i".to_owned(), UnaryOp::StringToI128));
    t.push(("bit_to_bool".to_owned(), UnaryOp::BitToBool));
    t.push(("assume".to_owned(), UnaryOp::AssumeProp));
    t.push(("not".to_owned(), UnaryOp::NotBool));
    t.push(("neg_int".to_owned(), UnaryOp::NegInt));
    t.push(("abs_int".to_owned(), UnaryOp::AbsInt));
    t.push(("pow2".to_owned(), UnaryOp::Pow2));
    t.push(("not_bits".to_owned(), UnaryOp::NotBits));
    t.push(("length".to_owned(), UnaryOp::Length));
    t.push(("zeros".to_owned(), UnaryOp::Zeros));
    t.push(("ones".to_owned(), UnaryOp::Ones));
    t.push(("sail_unsigned".to_owned(), UnaryOp::SailUnsigned));
    t.push(("sail_signed".to_owned(), UnaryOp::SailSigned));
    t.push(("sail_putchar".to_owned(), UnaryOp::Putchar));
    t.push(("print".to_owned(), UnaryOp::Print));
    t.push(("prerr".to_owned(), UnaryOp::Prerr));
    t.push(("print_endline".to_owned(), UnaryOp::PrintEndline));
    t.push(("prerr_endline".to_owned(), UnaryOp::PrerrEndline));
    t.push(("count_leading_zeros".to_owned(), UnaryOp::CountLeadingZeros));
    t.push(("undefined_bitvector".to_owned(), UnaryOp::UndefinedBitvector));
    t.push(("undefined_bool".to_owned(), UnaryOp::UndefinedBool));
    t.push(("undefined_int".to_owned(), UnaryOp::UndefinedInt));
    t.push(("undefined_nat".to_owned(), UnaryOp::UndefinedNat));
    t.push(("undefined_unit".to_owned(), UnaryOp::UndefinedUnit));
    t.push(("undefined_string".to_owned(), UnaryOp::UndefinedString));
    t.push(("one_if".to_owned(), UnaryOp::OneIf));
    t.push(("zero_if".to_owned(), UnaryOp::ZeroIf));
    t.push(("internal_pick".to_owned(), UnaryOp::Choice));
    t.push(("bad_read".to_owned(), UnaryOp::BadRead));
    t.push(("bad_write".to_owned(), UnaryOp::BadWrite));
    t.push(("hex_str".to_owned(), UnaryOp::HexStr));
    t.push(("dec_str".to_owned(), UnaryOp::DecStr));
    t.push(("string_length".to_owned(), UnaryOp::StringLength));
    t.push(("string_of_bits".to_owned(), UnaryOp::StringOfBits));
    t.push(("decimal_string_of_bits".to_owned(), UnaryOp::DecimalStringOfBits));
    t.push(("string_of_int".to_owned(), UnaryOp::StringOfInt));
    t.push(("cycle_count".to_owned(), UnaryOp::CycleCount));
    t.push(("get_cycle_count".to_owned(), UnaryOp::GetCycleCount));
    t.push(("sail_get_verbosity".to_owned(), UnaryOp::GetVerbosity));
    t.push(("sleeping".to_owned(), UnaryOp::Sleeping));
    t.push(("sleep_request".to_owned(), UnaryOp::SleepRequest));
    t.push(("wakeup_request".to_owned(), UnaryOp::WakeupRequest));
    t.push(("platform_instr_announce".to_owned(), UnaryOp::InstrAnnounce));
    t.push(("platform_barrier".to_owned(), UnaryOp::Barrier));
    t.push(("monomorphize".to_owned(), UnaryOp::Monomorphize));
    t
}

/// The name-to-tag table of the binary primops. A few IR names share an
/// implementation, as the strict boolean connectives do.
#[verifier::rlimit(100)]
#[verifier::spinoff_prover]
pub fn binary_primops() -> (r: Vec<(String, BinaryOp)>)
    ensures
        r@.len() == 68,
        r@[0].0@ == "optimistic_assert"@ && r@[0].1 == BinaryOp::OptimisticAssert,
        r@[1].0@ == "pessimistic_assert"@ && r@[1].1 == BinaryOp::PessimisticAssert,
        r@[2].0@ == "and_bool"@ && r@[2].1 == BinaryOp::AndBool,
        r@[3].0@ == "strict_and_bool"@ && r@[3].1 == BinaryOp::AndBool,
        r@[4].0@ == "or_bool"@ && r@[4].1 == BinaryOp::OrBool,
        r@[5].0@ == "strict_or_bool"@ && r@[5].1 == BinaryOp::OrBool,
        r@[6].0@ == "eq_int"@ && r@[6].1 == BinaryOp::EqInt,
        r@[7].0@ == "eq_bool"@ && r@[7].1 == BinaryOp::EqBool,
        r@[8].0@ == "lteq"@ && r@[8].1 == BinaryOp::LteqInt,
        r@[9].0@ == "gteq"@ && r@[9].1 == BinaryOp::GteqInt,
        r@[10].0@ == "lt"@ && r@[10].1 == BinaryOp::LtInt,
        r@[11].0@ == "gt"@ && r@[11].1 == BinaryOp::GtInt,
        r@[12].0@ == "add_int"@ && r@[12].1 == BinaryOp::AddInt,
        r@[13].0@ == "sub_int"@ && r@[13].1 == BinaryOp::SubInt,
        r@[14].0@ == "sub_nat"@ && r@[14].1 == BinaryOp::SubNat,
        r@[15].0@ == "mult_int"@ && r@[15].1 == BinaryOp::MultInt,
        r@[16].0@ == "tdiv_int"@ && r@[16].1 == BinaryOp::TdivInt,
        r@[17].0@ == "tmod_int"@ && r@[17].1 == BinaryOp::TmodInt,
        r@[18].0@ == "ediv_int"@ && r@[18].1 == BinaryOp::TdivInt,
        r@[19].0@ == "emod_int"@ && r@[19].1 == BinaryOp::TmodInt,
        r@[20].0@ == "pow_int"@ && r@[20].1 == BinaryOp::PowInt,
        r@[21].0@ == "shl_int"@ && r@[21].1 == BinaryOp::ShlInt,
        r@[22].0@ == "shr_int"@ && r@[22].1 == BinaryOp::ShrInt,
        r@[23].0@ == "shl_mach_int"@ && r@[23].1 == BinaryOp::ShlMachInt,
        r@[24].0@ == "shr_mach_int"@ && r@[24].1 == BinaryOp::ShrMachInt,
        r@[25].0@ == "max_int"@ && r@[25].1 == BinaryOp::MaxInt,
        r@[26].0@ == "min_int"@ && r@[26].1 == BinaryOp::MinInt,
        r@[27].0@ == "eq_bit"@ && r@[27].1 == BinaryOp::EqBits,
        r@[28].0@ == "eq_bits"@ && r@[28].1 == BinaryOp::EqBits,
        r@[29].0@ == "neq_bits"@ && r@[29].1 == BinaryOp::NeqBits,
        r@[30].0@ == "xor_bits"@ && r@[30].1 == BinaryOp::XorBits,
        r@[31].0@ == "or_bits"@ && r@[31].1 == BinaryOp::OrBits,
        r@[32].0@ == "and_bits"@ && r@[32].1 == BinaryOp::AndBits,
        r@[33].0@ == "add_bits"@ && r@[33].1 == BinaryOp::AddBits,
        r@[34].0@ == "sub_bits"@ && r@[34].1 == BinaryOp::SubBits,
        r@[35].0@ == "add_bits_int"@ && r@[35].1 == BinaryOp::AddBitsInt,
        r@[36].0@ == "sub_bits_int"@ && r@[36].1 == BinaryOp::SubBitsInt,
        r@[37].0@ == "align_bits"@ && r@[37].1 == BinaryOp::AlignBits,
        r@[38].0@ == "undefined_range"@ && r@[38].1 == BinaryOp::UndefinedRange,
        r@[39].0@ == "zero_extend"@ && r@[39].1 == BinaryOp::ZeroExtend,
        r@[40].0@ == "sign_extend"@ && r@[40].1 == BinaryOp::SignExtend,
        r@[41].0@ == "sail_truncate"@ && r@[41].1 == BinaryOp::SailTruncate,
        r@[42].0@ == "sail_truncateLSB"@ && r@[42].1 == BinaryOp::SailTruncateLsb,
        r@[43].0@ == "replicate_bits"@ && r@[43].1 == BinaryOp::ReplicateBits,
        r@[44].0@ == "shiftr"@ && r@[44].1 == BinaryOp::Shiftr,
        r@[45].0@ == "shiftl"@ && r@[45].1 == BinaryOp::Shiftl,
        r@[46].0@ == "arith_shiftr"@ && r@[46].1 == BinaryOp::ArithShiftr,
        r@[47].0@ == "shift_bits_right"@ && r@[47].1 == BinaryOp::ShiftBitsRight,
        r@[48].0@ == "shift_bits_left"@ && r@[48].1 == BinaryOp::ShiftBitsLeft,
        r@[49].0@ == "append"@ && r@[49].1 == BinaryOp::Append,
        r@[50].0@ == "append_64"@ && r@[50].1 == BinaryOp::Append,
        r@[51].0@ == "vector_access"@ && r@[51].1 == BinaryOp::VectorAccess,
        r@[52].0@ == "eq_anything"@ && r@[52].1 == BinaryOp::EqAnything,
        r@[53].0@ == "eq_string"@ && r@[53].1 == BinaryOp::EqString,
        r@[54].0@ == "concat_str"@ && r@[54].1 == BinaryOp::ConcatStr,
        r@[55].0@ == "string_startswith"@ && r@[55].1 == BinaryOp::StringStartswith,
        r@[56].0@ == "string_drop"@ && r@[56].1 == BinaryOp::StringDrop,
        r@[57].0@ == "string_take"@ && r@[57].1 == BinaryOp::StringTake,
        r@[58].0@ == "cons"@ && r@[58].1 == BinaryOp::Cons,
        r@[59].0@ == "undefined_vector"@ && r@[59].1 == BinaryOp::UndefinedVector,
        r@[60].0@ == "print_string"@ && r@[60].1 == BinaryOp::PrintString,
        r@[61].0@ == "prerr_string"@ && r@[61].1 == BinaryOp::PrerrString,
        r@[62].0@ == "print_int"@ && r@[62].1 == BinaryOp::PrintInt,
        r@[63].0@ == "prerr_int"@ && r@[63].1 == BinaryOp::PrerrInt,
        r@[64].0@ == "print_bits"@ && r@[64].1 == BinaryOp::PrintBits,
        r@[65].0@ == "prerr_bits"@ && r@[65].1 == BinaryOp::PrerrBits,
        r@[66].0@ == "platform_branch_announce"@ && r@[66].1 == BinaryOp::BranchAnnounce,
        r@[67].0@ == "mark_register"@ && r@[67].1 == BinaryOp::MarkRegister,
{
    let mut t: Vec<(String, BinaryOp)> = Vec::new();
    t.push(("optimistic_assert".to_owned(), BinaryOp::OptimisticAssert));
    t.push(("pessimistic_assert".to_owned(), BinaryOp::PessimisticAssert));
    t.push(("and_bool".to_owned(), BinaryOp::AndBool));
    t.push(("strict_and_bool".to_owned(), BinaryOp::AndBool));
    t.push(("or_bool".to_owned(), BinaryOp::OrBool));
    t.push(("strict_or_bool".to_owned(), BinaryOp::OrBool));
    t.push(("eq_int".to_owned(), BinaryOp::EqInt));
    t.push(("eq_bool".to_owned(), BinaryOp::EqBool));
    t.push(("lteq".to_owned(), BinaryOp::LteqInt));
    t.push(("gteq".to_owned(), BinaryOp::GteqInt));
    t.push(("lt".to_owned(), BinaryOp::LtInt));
    t.push(("gt".to_owned(), BinaryOp::GtInt));
    t.push(("add_int".to_owned(), BinaryOp::AddInt));
    t.push(("sub_int".to_owned(), BinaryOp::SubInt));
    t.push(("sub_nat".to_owned(), BinaryOp::SubNat));
    t.push(("mult_int".to_owned(), BinaryOp::MultInt));
    t.push(("tdiv_int".to_owned(), BinaryOp::TdivInt));
    t.push(("tmod_int".to_owned(), BinaryOp::TmodInt));
    t.push(("ediv_int".to_owned(), BinaryOp::TdivInt));
    t.push(("emod_int".to_owned(), BinaryOp::TmodInt));
    t.push(("pow_int".to_owned(), BinaryOp::PowInt));
    t.push(("shl_int".to_owned(), BinaryOp::ShlInt));
    t.push(("shr_int".to_owned(), BinaryOp::ShrInt));
    t.push(("shl_mach_int".to_owned(), BinaryOp::ShlMachInt));
    t.push(("shr_mach_int".to_owned(), BinaryOp::ShrMachInt));
    t.push(("max_int".to_owned(), BinaryOp::MaxInt));
    t.push(("min_int".to_owned(), BinaryOp::MinInt));
    t.push(("eq_bit".to_owned(), BinaryOp::EqBits));
    t.push(("eq_bits".to_owned(), BinaryOp::EqBits));
    t.push(("neq_bits".to_owned(), BinaryOp::NeqBits));
    t.push(("xor_bits".to_owned(), BinaryOp::XorBits));
    t.push(("or_bits".to_owned(), BinaryOp::OrBits));
    t.push(("and_bits".to_owned(), BinaryOp::AndBits));
    t.push(("add_bits".to_owned(), BinaryOp::AddBits));
    t.push(("sub_bits".to_owned(), BinaryOp::SubBits));
    t.push(("add_bits_int".to_owned(), BinaryOp::AddBitsInt));
    t.push(("sub_bits_int".to_owned(), BinaryOp::SubBitsInt));
    t.push(("align_bits".to_owned(), BinaryOp::AlignBits));
    t.push(("undefined_range".to_owned(), BinaryOp::UndefinedRange));
    t.push(("zero_extend".to_owned(), BinaryOp::ZeroExtend));
    t.push(("sign_extend".to_owned(), BinaryOp::SignExtend));
    t.push(("sail_truncate".to_owned(), BinaryOp::SailTruncate));
    t.push(("sail_truncateLSB".to_owned(), BinaryOp::SailTruncateLsb));
    t.push(("replicate_bits".to_owned(), BinaryOp::ReplicateBits));
    t.push(("shiftr".to_owned(), BinaryOp::Shiftr));
    t.push(("shiftl".to_owned(), BinaryOp::Shiftl));
    t.push(("arith_shiftr".to_owned(), BinaryOp::ArithShiftr));
    t.push(("shift_bits_right".to_owned(), BinaryOp::ShiftBitsRight));
    t.push(("shift_bits_left".to_owned(), BinaryOp::ShiftBitsLeft));
    t.push(("append".to_owned(), BinaryOp::Append));
    t.push(("append_64".to_owned(), BinaryOp::Append));
    t.push(("vector_access".to_owned(), BinaryOp::VectorAccess));
    t.push(("eq_anything".to_owned(), BinaryOp::EqAnything));
    t.push(("eq_string".to_owned(), BinaryOp::EqString));
    t.push(("concat_str".to_owned(), BinaryOp::ConcatStr));
    t.push(("string_startswith".to_owned(), BinaryOp::StringStartswith));
    t.push(("string_drop".to_owned(), BinaryOp::StringDrop));
    t.push(("string_take".to_owned(), BinaryOp::StringTake));
    t.push(("cons".to_owned(), BinaryOp::Cons));
    t.push(("undefined_vector".to_owned(), BinaryOp::UndefinedVector));
    t.push(("print_string".to_owned(), BinaryOp::PrintString));
    t.push(("prerr_string".to_owned(), BinaryOp::PrerrString));
    t.push(("print_int".to_owned(), BinaryOp::PrintInt));
    t.push(("prerr_int".to_owned(), BinaryOp::PrerrInt));
    t.push(("print_bits".to_owned(), BinaryOp::PrintBits));
    t.push(("prerr_bits".to_owned(), BinaryOp::PrerrBits));
    t.push(("platform_branch_announce".to_owned(), BinaryOp::BranchAnnounce));
    t.push(("mark_register".to_owned(), BinaryOp::MarkRegister));
    t
}

/// The name-to-tag table of the variadic primops. The real-number
/// operations are registered but always unimplemented.
#[verifier::rlimit(100)]
#[verifier::spinoff_prover]
pub fn variadic_primops() -> (r: Vec<(String, VariadicOp)>)
    ensures
        r@.len() == 37,
        r@[0].0@ == "slice"@ && r@[0].1 == VariadicOp::Slice,
        r@[1].0@ == "vector_subrange"@ && r@[1].1 == VariadicOp::VectorSubrange,
        r@[2].0@ == "vector_update"@ && r@[2].1 == VariadicOp::VectorUpdate,
        r@[3].0@ == "vector_update_subrange"@ && r@[3].1 == VariadicOp::VectorUpdateSubrange,
        r@[4].0@ == "bitvector_update"@ && r@[4].1 == VariadicOp::BitvectorUpdate,
        r@[5].0@ == "set_slice"@ && r@[5].1 == VariadicOp::SetSlice,
        r@[6].0@ == "get_slice_int"@ && r@[6].1 == VariadicOp::GetSliceInt,
        r@[7].0@ == "set_slice_int"@ && r@[7].1 == VariadicOp::SetSliceInt,
        r@[8].0@ == "platform_read_mem"@ && r@[8].1 == VariadicOp::ReadMem,
        r@[9].0@ == "platform_read_memt"@ && r@[9].1 == VariadicOp::ReadMemt,
        r@[10].0@ == "platform_write_mem"@ && r@[10].1 == VariadicOp::WriteMem,
        r@[11].0@ == "platform_write_memt"@ && r@[11].1 == VariadicOp::WriteMemt,
        r@[12].0@ == "platform_write_mem_ea"@ && r@[12].1 == VariadicOp::WriteMemEa,
        r@[13].0@ == "platform_cache_maintenance"@ && r@[13].1 == VariadicOp::CacheMaintenance,
        r@[14].0@ == "elf_entry"@ && r@[14].1 == VariadicOp::ElfEntry,
        r@[15].0@ == "ite"@ && r@[15].1 == VariadicOp::Ite,
        r@[16].0@ == "mark_register_pair"@ && r@[16].1 == VariadicOp::MarkRegisterPair,
        r@[17].0@ == "neg_real"@ && r@[17].1 == VariadicOp::Unimplemented,
        r@[18].0@ == "mult_real"@ && r@[18].1 == VariadicOp::Unimplemented,
        r@[19].0@ == "sub_real"@ && r@[19].1 == VariadicOp::Unimplemented,
        r@[20].0@ == "add_real"@ && r@[20].1 == VariadicOp::Unimplemented,
        r@[21].0@ == "div_real"@ && r@[21].1 == VariadicOp::Unimplemented,
        r@[22].0@ == "sqrt_real"@ && r@[22].1 == VariadicOp::Unimplemented,
        r@[23].0@ == "abs_real"@ && r@[23].1 == VariadicOp::Unimplemented,
        r@[24].0@ == "round_down"@ && r@[24].1 == VariadicOp::Unimplemented,
        r@[25].0@ == "round_up"@ && r@[25].1 == VariadicOp::Unimplemented,
        r@[26].0@ == "to_real"@ && r@[26].1 == VariadicOp::Unimplemented,
        r@[27].0@ == "eq_real"@ && r@[27].1 == VariadicOp::Unimplemented,
        r@[28].0@ == "lt_real"@ && r@[28].1 == VariadicOp::Unimplemented,
        r@[29].0@ == "gt_real"@ && r@[29].1 == VariadicOp::Unimplemented,
        r@[30].0@ == "lteq_real"@ && r@[30].1 == VariadicOp::Unimplemented,
        r@[31].0@ == "gteq_real"@ && r@[31].1 == VariadicOp::Unimplemented,
        r@[32].0@ == "real_power"@ && r@[32].1 == VariadicOp::Unimplemented,
        r@[33].0@ == "print_real"@ && r@[33].1 == VariadicOp::Unimplemented,
        r@[34].0@ == "prerr_real"@ && r@[34].1 == VariadicOp::Unimplemented,
        r@[35].0@ == "%string->%real"@ && r@[35].1 == VariadicOp::Unimplemented,
        r@[36].0@ == "undefined_real"@ && r@[36].1 == VariadicOp::Unimplemented,
{
    let mut t: Vec<(String, VariadicOp)> = Vec::new();
    t.push(("slice".to_owned(), VariadicOp::Slice));
    t.push(("vector_subrange".to_owned(), VariadicOp::VectorSubrange));
    t.push(("vector_update".to_owned(), VariadicOp::VectorUpdate));
    t.push(("vector_update_subrange".to_owned(), VariadicOp::VectorUpdateSubrange));
    t.push(("bitvector_update".to_owned(), VariadicOp::BitvectorUpdate));
    t.push(("set_slice".to_owned(), VariadicOp::SetSlice));
    t.push(("get_slice_int".to_owned(), VariadicOp::GetSliceInt));
    t.push(("set_slice_int".to_owned(), VariadicOp::SetSliceInt));
    t.push(("platform_read_mem".to_owned(), VariadicOp::ReadMem));
    t.push(("platform_read_memt".to_owned(), VariadicOp::ReadMemt));
    t.push(("platform_write_mem".to_owned(), VariadicOp::WriteMem));
    t.push(("platform_write_memt".to_owned(), VariadicOp::WriteMemt));
    t.push(("platform_write_mem_ea".to_owned(), VariadicOp::WriteMemEa));
    t.push(("platform_cache_maintenance".to_owned(), VariadicOp::CacheMaintenance));
    t.push(("elf_entry".to_owned(), VariadicOp::ElfEntry));
    t.push(("ite".to_owned(), VariadicOp::Ite));
    t.push(("mark_register_pair".to_owned(), VariadicOp::MarkRegisterPair));
    t.push(("neg_real".to_owned(), VariadicOp::Unimplemented));
    t.push(("mult_real".to_owned(), VariadicOp::Unimplemented));
    t.push(("sub_real".to_owned(), VariadicOp::Unimplemented));
    t.push(("add_real".to_owned(), VariadicOp::Unimplemented));
    t.push(("div_real".to_owned(), VariadicOp::Unimplemented));
    t.push(("sqrt_real".to_owned(), VariadicOp::Unimplemented));
    t.push(("abs_real".to_owned(), VariadicOp::Unimplemented));
    t.push(("round_down".to_owned(), VariadicOp::Unimplemented));
    t.push(("round_up".to_owned(), VariadicOp::Unimplemented));
    t.push(("to_real".to_owned(), VariadicOp::Unimplemented));
    t.push(("eq_real".to_owned(), VariadicOp::Unimplemented));
    t.push(("lt_real".to_owned(), VariadicOp::Unimplemented));
    t.push(("gt_real".to_owned(), VariadicOp::Unimplemented));
    t.push(("lteq_real".to_owned(), VariadicOp::Unimplemented));
    t.push(("gteq_real".to_owned(), VariadicOp::Unimplemented));
    t.push(("real_power".to_owned(), VariadicOp::Unimplemented));
    t.push(("print_real".to_owned(), VariadicOp::Unimplemented));
    t.push(("prerr_real".to_owned(), VariadicOp::Unimplemented));
    t.push(("%string->%real".to_owned(), VariadicOp::Unimplemented));
    t.push(("undefined_real".to_owned(), VariadicOp::Unimplemented));
    t
}

/// The tag of the first table entry with the given IR name.
pub open spec fn table_lookup<Op>(s: Seq<(String, Op)>, name: Seq<char>) -> Option<Op>
    decreases s.len(),
{
    if s.len() == 0 {
        None
    } else if s[0].0@ == name {
        Some(s[0].1)
    } else {
        table_lookup(s.drop_first(), name)
    }
}

/// Within a prefix without the name, the first match lies in the rest.
proof fn lemma_table_lookup_skip<Op>(s: Seq<(String, Op)>, name: Seq<char>, k: int)
    requires
        0 <= k <= s.len(),
        forall|i: int| 0 <= i < k ==> (#[trigger] s[i]).0@ != name,
    ensures
        table_lookup(s, name) == table_lookup(s.subrange(k, s.len() as int), name),
    decreases k,
{
    if k == 0 {
        assert(s.subrange(0, s.len() as int) =~= s);
    } else {
        assert(s.drop_first() =~= s.subrange(1, s.len() as int));
        assert forall|i: int| 0 <= i < k - 1 implies (#[trigger] s.drop_first()[i]).0@ != name by {
            assert(s.drop_first()[i] == s[i + 1]);
        }
        lemma_table_lookup_skip(s.drop_first(), name, k - 1);
        assert(s.drop_first().subrange(k - 1, s.drop_first().len() as int) =~= s.subrange(
            k,
            s.len() as int,
        ));
    }
}

/// The three primop tables, populated once at startup.
pub struct Primops {
    pub unary: Vec<(String, UnaryOp)>,
    pub binary: Vec<(String, BinaryOp)>,
    pub variadic: Vec<(String, VariadicOp)>,
}

impl Primops {
    /// Build the tables.
    pub fn new() -> (r: Primops)
        ensures
            r.unary@.len() == 47,
            r.binary@.len() == 68,
            r.variadic@.len() == 37,
    {
        Primops { unary: unary_primops(), binary: binary_primops(), variadic: variadic_primops() }
    }

    /// Find a unary operation by its IR name.
    #[verifier::loop_isolation(false)]
    pub fn lookup_unary(&self, name: &String) -> (r: Option<UnaryOp>)
        ensures
            r == table_lookup(self.unary@, name@),
    {
        let mut k: usize = 0;
        while k < self.unary.len()
            invariant
                k <= self.unary@.len(),
                forall|i: int| 0 <= i < k ==> (#[trigger] self.unary@[i]).0@ != name@,
            decreases self.unary@.len() - k,
        {
            if self.unary[k].0 == *name {
                proof {
                    let s = self.unary@;
                    lemma_table_lookup_skip(s, name@, k as int);
                    let rest = s.subrange(k as int, s.len() as int);
                    assert(rest[0] == s[k as int]);
                }
                return Some(self.unary[k].1);
            }
            k += 1;
        }
        proof {
            let s = self.unary@;
            lemma_table_lookup_skip(s, name@, s.len() as int);
            assert(s.subrange(s.len() as int, s.len() as int).len() == 0);
        }
        None
    }

    /// Find a binary operation by its IR name.
    #[verifier::loop_isolation(false)]
    pub fn lookup_binary(&self, name: &String) -> (r: Option<BinaryOp>)
        ensures
            r == table_lookup(self.binary@, name@),
    {
        let mut k: usize = 0;
        while k < self.binary.len()
            invariant
                k <= self.binary@.len(),
                forall|i: int| 0 <= i < k ==> (#[trigger] self.binary@[i]).0@ != name@,
            decreases self.binary@.len() - k,
        {
            if self.binary[k].0 == *name {
                proof {
                    let s = self.binary@;
                    lemma_table_lookup_skip(s, name@, k as int);
                    let rest = s.subrange(k as int, s.len() as int);
                    assert(rest[0] == s[k as int]);
                }
                return Some(self.binary[k].1);
            }
            k += 1;
        }
        proof {
            let s = self.binary@;
            lemma_table_lookup_skip(s, name@, s.len() as int);
            assert(s.subrange(s.len() as int, s.len() as int).len() == 0);
        }
        None
    }

    /// Find a variadic operation by its IR name.
    #[verifier::loop_isolation(false)]
    pub fn lookup_variadic(&self, name: &String) -> (r: Option<VariadicOp>)
        ensures
            r == table_lookup(self.variadic@, name@),
    {
        let mut k: usize = 0;
        while k < self.variadic.len()
            invariant
                k <= self.variadic@.len(),
                forall|i: int| 0 <= i < k ==> (#[trigger] self.variadic@[i]).0@ != name@,
            decreases self.variadic@.len() - k,
        {
            if self.variadic[k].0 == *name {
                proof {
                    let s = self.variadic@;
                    lemma_table_lookup_skip(s, name@, k as int);
                    let rest = s.subrange(k as int, s.len() as int);
                    assert(rest[0] == s[k as int]);
                }
                return Some(self.variadic[k].1);
            }
            k += 1;
        }
        proof {
            let s = self.variadic@;
            lemma_table_lookup_skip(s, name@, s.len() as int);
            assert(s.subrange(s.len() as int, s.len() as int).len() == 0);
        }
        None
    }

    /// One primop name is resolvable: it is interned and some table maps
    /// its identifier to an operation.
    pub open spec fn resolves(&self, symtab: &crate::ast::Symtab, f: u32) -> bool {
        &&& f < symtab.view().len()
        &&& {
            let name = symtab.view()[f as int];
            table_lookup(self.unary@, name) is Some || table_lookup(self.binary@, name) is Some
                || table_lookup(self.variadic@, name) is Some
        }
    }

    /// The setup-time totality check: every primop name of the shared
    /// state must be found in some table, so that an unresolved primop
    /// fails before execution starts.
    #[verifier::loop_isolation(false)]
    pub fn check_resolved(&self, shared: &SharedState) -> (r: bool)
        requires
            shared.symtab.wf(),
        ensures
            r <==> forall|i: int|
                0 <= i < shared.primops@.len() ==> self.resolves(
                    &shared.symtab,
                    #[trigger] shared.primops@[i],
                ),
    {
        let mut k: usize = 0;
        let n = shared.primops.len();
        while k < n
            invariant
                k <= n,
                forall|i: int|
                    0 <= i < k ==> self.resolves(&shared.symtab, #[trigger] shared.primops@[i]),
            decreases n - k,
        {
            let f = shared.primops[k];
            if (f as usize) < shared.symtab.symbols_len() {
                let name = shared.symtab.to_str(f).to_owned();
                let found = self.lookup_unary(&name).is_some() || self.lookup_binary(
                    &name,
                ).is_some() || self.lookup_variadic(&name).is_some();
                if !found {
                    proof {
                        assert(!self.resolves(&shared.symtab, shared.primops@[k as int]));
                    }
                    return false;
                }
            } else {
                proof {
                    assert(!self.resolves(&shared.symtab, shared.primops@[k as int]));
                }
                return false;
            }
            k += 1;
        }
        true
    }
}


/// Nothing of the solver changed; shorthand used by the argument-list
/// contracts below.
pub open spec fn args_type_error(r: Result<Val, ExecError>, pre: Solver, post: Solver) -> bool {
    &&& post.wf()
    &&& r matches Err(e) && e is Type && primop::solver_unchanged(pre, post)
}

/// The contract of the slice argument form: three arguments, handed to the
/// internal slice.
pub open spec fn slice_args_post(
    args: Seq<Val>,
    r: Result<Val, ExecError>,
    pre: Solver,
    post: Solver,
) -> bool {
    &&& args.len() == 3 ==> primop_bits::slice_internal_post(
        args[0]@,
        args[1]@,
        args[2]@,
        r,
        pre,
        post,
    )
    &&& args.len() != 3 ==> args_type_error(r, pre, post)
}

/// The contract of the subrange argument form.
pub open spec fn subrange_args_post(
    args: Seq<Val>,
    r: Result<Val, ExecError>,
    pre: Solver,
    post: Solver,
) -> bool {
    &&& args.len() == 3 ==> primop_bits::subrange_internal_post(
        args[0]@,
        args[1]@,
        args[2]@,
        r,
        pre,
        post,
    )
    &&& args.len() != 3 ==> args_type_error(r, pre, post)
}

/// The contract of the set-slice argument form: the two leading length
/// arguments are ignored.
pub open spec fn set_slice_args_post(
    args: Seq<Val>,
    r: Result<Val, ExecError>,
    pre: Solver,
    post: Solver,
) -> bool {
    &&& args.len() == 5 ==> primop_bits::set_slice_internal_post(
        args[2]@,
        args[3]@,
        args[4]@,
        r,
        pre,
        post,
    )
    &&& args.len() != 5 ==> args_type_error(r, pre, post)
}

/// The contract of the integer set-slice argument form: the leading length
/// argument is ignored.
pub open spec fn set_slice_int_args_post(
    args: Seq<Val>,
    r: Result<Val, ExecError>,
    pre: Solver,
    post: Solver,
) -> bool {
    &&& args.len() == 4 ==> primop_bits::set_slice_int_internal_post(
        args[1]@,
        args[2]@,
        args[3]@,
        r,
        pre,
        post,
    )
    &&& args.len() != 4 ==> args_type_error(r, pre, post)
}

/// The contract of the integer slice argument form.
pub open spec fn get_slice_int_args_post(
    args: Seq<Val>,
    r: Result<Val, ExecError>,
    pre: Solver,
    post: Solver,
) -> bool {
    &&& args.len() == 3 ==> primop_bits::get_slice_int_internal_post(
        args[0]@,
        args[1]@,
        args[2]@,
        r,
        pre,
        post,
    )
    &&& args.len() != 3 ==> args_type_error(r, pre, post)
}

/// The contract of the subrange-update argument form: the high bound is
/// ignored, as the widths carry it.
pub open spec fn vector_update_subrange_args_post(
    args: Seq<Val>,
    r: Result<Val, ExecError>,
    pre: Solver,
    post: Solver,
) -> bool {
    &&& args.len() == 4 ==> primop_bits::set_slice_internal_post(
        args[0]@,
        args[2]@,
        args[3]@,
        r,
        pre,
        post,
    )
    &&& args.len() != 4 ==> args_type_error(r, pre, post)
}

/// The contract of the one-bit update argument form.
pub open spec fn bitvector_update_args_post(
    args: Seq<Val>,
    r: Result<Val, ExecError>,
    pre: Solver,
    post: Solver,
) -> bool {
    &&& args.len() == 3 ==> primop_bits::op_set_slice_post(
        args[0]@,
        args[1]@,
        args[2]@,
        r,
        pre,
        post,
    )
    &&& args.len() != 3 ==> args_type_error(r, pre, post)
}

/// The contract of the register-pair mark argument form.
pub open spec fn mark_register_pair_args_post(
    args: Seq<Val>,
    r: Result<Val, ExecError>,
    pre: Solver,
    post: Solver,
) -> bool {
    &&& args.len() == 3 ==> primop_misc::mark_register_pair_internal_post(
        args[0]@,
        args[1]@,
        args[2]@,
        r,
        pre,
        post,
    )
    &&& args.len() != 3 ==> args_type_error(r, pre, post)
}

/// The contract of updating one vector element: a concrete index replaces
/// that element, a symbolic index turns every element into a fresh
/// selector, and bit vectors fall through to the set-slice form.
pub open spec fn vector_update_args_post(
    args: Seq<Val>,
    r: Result<Val, ExecError>,
    pre: Solver,
    post: Solver,
) -> bool {
    &&& post.wf()
    &&& args.len() == 3 ==> match (args[0]@, args[1]@) {
        (AbsVal::Vector(items), AbsVal::I128(m)) => if 0 <= m < items.len() {
            (r matches Ok(v) && v@ == AbsVal::Vector(items.update(m as int, args[2]@)))
                && primop::solver_unchanged(pre, post)
        } else {
            r matches Err(e) && e is OutOfBounds && primop::solver_unchanged(pre, post)
        },
        (AbsVal::Vector(items), AbsVal::I64(m)) => if 0 <= m < items.len() {
            (r matches Ok(v) && v@ == AbsVal::Vector(items.update(m as int, args[2]@)))
                && primop::solver_unchanged(pre, post)
        } else {
            r matches Err(e) && e is OutOfBounds && primop::solver_unchanged(pre, post)
        },
        (AbsVal::Vector(items), AbsVal::Symbolic(nsym)) => {
            &&& primop::solver_evolves(pre, post)
            &&& ((primop::is_smt_base(args[2]@) && (forall|i: int|
                0 <= i < items.len() ==> primop::is_smt_base(#[trigger] items[i]))
                && pre.next_sym() + items.len() + 2 < u32::MAX && items.len() <= u64::MAX)
                ==> r is Ok)
            &&& (r matches Ok(v) ==> (v@ matches AbsVal::Vector(out) && out.len() == items.len()
                && post.trace().len() == pre.trace().len() + items.len() && forall|i: int|
                0 <= i < out.len() ==> {
                    &&& (#[trigger] out[i]) matches AbsVal::Symbolic(s) && post.trace()[
                    pre.trace().len() + i] matches Def::DefineConst(s2, e) && s2 == s && (
                    e matches Exp::Ite(c, t, el) && (*c matches Exp::Eq(a, b) && *a == Exp::Var(
                        nsym,
                    ) && *b == Exp::Bits64(i as u64, 128)) && primop::is_smt_value(args[2]@, *t)
                        && primop::is_smt_value(items[i], *el))
                }))
        },
        (AbsVal::Bits(_), _) => primop_bits::set_slice_internal_post(
            args[0]@,
            args[1]@,
            args[2]@,
            r,
            pre,
            post,
        ),
        (AbsVal::Symbolic(s), _) => if pre.spec_length(s) is Some {
            primop_bits::set_slice_internal_post(args[0]@, args[1]@, args[2]@, r, pre, post)
        } else {
            args_type_error(r, pre, post)
        },
        _ => args_type_error(r, pre, post),
    }
    &&& args.len() != 3 ==> args_type_error(r, pre, post)
}

/// Extra conditions some binary operations put on their operands: a
/// concrete division by zero is excluded.
pub open spec fn binary_req(op: BinaryOp, x: AbsVal, y: AbsVal) -> bool {
    match op {
        BinaryOp::TdivInt | BinaryOp::TmodInt => !(x matches AbsVal::I128(_) && y
            == AbsVal::I128(0i128)),
        _ => true,
    }
}

/// The dispatched unary operation's own contract, selected by tag.
pub open spec fn unary_dispatch_post(
    op: UnaryOp,
    x: Val,
    r: Result<Val, ExecError>,
    pre: Solver,
    post: Solver,
) -> bool {
    match op {
                UnaryOp::I64ToI128 => primop::i64_to_i128_post(x@, r, pre, post),
                UnaryOp::I128ToI64 => primop::i128_to_i64_post(x@, r, pre, post),
                UnaryOp::StringToI128 => primop_misc::string_to_i128_post(x@, r, pre, post),
                UnaryOp::BitToBool => primop::bit_to_bool_post(x@, r, pre, post),
                UnaryOp::AssumeProp => primop::assume_prop_post(x@, r, pre, post),
                UnaryOp::NotBool => primop::not_bool_post(x@, r, pre, post),
                UnaryOp::NegInt => primop::neg_int_post(x@, r, pre, post),
                UnaryOp::AbsInt => primop::abs_int_post(x@, r, pre, post),
                UnaryOp::Pow2 => primop::pow2_post(x@, r, pre, post),
                UnaryOp::NotBits => primop::not_bits_post(x@, r, pre, post),
                UnaryOp::Length => primop_bits::length_post(x@, r, pre, post),
                UnaryOp::Zeros => primop_bits::zeros_post(x@, r, pre, post),
                UnaryOp::Ones => primop_bits::ones_post(x@, r, pre, post),
                UnaryOp::SailUnsigned => primop_bits::sail_unsigned_post(x@, r, pre, post),
                UnaryOp::SailSigned => primop_bits::sail_signed_post(x@, r, pre, post),
                UnaryOp::Putchar => primop_misc::putchar_post(x@, r, pre, post),
                UnaryOp::Print => primop_misc::print_post(x@, r, pre, post),
                UnaryOp::Prerr => primop_misc::prerr_post(x@, r, pre, post),
                UnaryOp::PrintEndline => primop_misc::print_endline_post(x@, r, pre, post),
                UnaryOp::PrerrEndline => primop_misc::prerr_endline_post(x@, r, pre, post),
                UnaryOp::CountLeadingZeros => primop_bits::count_leading_zeros_post(x@, r, pre, post),
                UnaryOp::UndefinedBitvector => primop_misc::undefined_bitvector_post(x@, r, pre, post),
                UnaryOp::UndefinedBool => primop_misc::undefined_bool_post(x@, r, pre, post),
                UnaryOp::UndefinedInt => primop_misc::undefined_int_post(x@, r, pre, post),
                UnaryOp::UndefinedNat => primop_misc::undefined_nat_post(x@, r, pre, post),
                UnaryOp::UndefinedUnit => primop_misc::undefined_unit_post(x@, r, pre, post),
                UnaryOp::UndefinedString => primop_misc::undefined_string_post(x@, r, pre, post),
                UnaryOp::OneIf => primop_misc::one_if_post(x@, r, pre, post),
                UnaryOp::ZeroIf => primop_misc::zero_if_post(x@, r, pre, post),
                UnaryOp::Choice => primop_misc::choice_post(x@, r, pre, post),
                UnaryOp::BadRead => primop_misc::bad_read_post(x@, r, pre, post),
                UnaryOp::BadWrite => primop_misc::bad_write_post(x@, r, pre, post),
                UnaryOp::HexStr => primop_misc::hex_str_post(x@, r, pre, post),
                UnaryOp::DecStr => primop_misc::dec_str_post(x@, r, pre, post),
                UnaryOp::StringLength => primop_misc::string_length_post(x@, r, pre, post),
                UnaryOp::StringOfBits => primop_misc::string_of_bits_post(x@, r, pre, post),
                UnaryOp::DecimalStringOfBits => primop_misc::decimal_string_of_bits_post(x@, r, pre, post),
                UnaryOp::StringOfInt => primop_misc::string_of_int_post(x@, r, pre, post),
                UnaryOp::CycleCount => primop_misc::cycle_count_post(x@, r, pre, post),
                UnaryOp::GetCycleCount => primop_misc::get_cycle_count_post(x@, r, pre, post),
                UnaryOp::GetVerbosity => primop_misc::get_verbosity_post(x@, r, pre, post),
                UnaryOp::Sleeping => primop_misc::sleeping_post(x@, r, pre, post),
                UnaryOp::SleepRequest => primop_misc::sleep_request_post(x@, r, pre, post),
                UnaryOp::WakeupRequest => primop_misc::wakeup_request_post(x@, r, pre, post),
                UnaryOp::InstrAnnounce => primop_misc::instr_announce_post(x@, r, pre, post),
                UnaryOp::Barrier => primop_misc::barrier_post(x@, r, pre, post),
                UnaryOp::Monomorphize => primop_misc::monomorphize_post(x@, r, pre, post),
    }
}

/// Run a unary operation; the named operation's postcondition holds of the
/// result.
pub fn call_unary(op: &UnaryOp, x: Val, solver: &mut Solver) -> (r: Result<Val, ExecError>)
    requires
        old(solver).wf(),
        old(solver).next_sym() + 6 * 129 < u32::MAX,
        old(solver).cycles() < i128::MAX,
        abs_wf(x@),
    ensures
        final(solver).wf(),
        unary_dispatch_post(*op, x, r, *old(solver), *final(solver)),
{
    match op {
        UnaryOp::I64ToI128 => primop::i64_to_i128(x, solver),
        UnaryOp::I128ToI64 => primop::i128_to_i64(x, solver),
        UnaryOp::StringToI128 => primop_misc::string_to_i128(x, solver),
        UnaryOp::BitToBool => primop::bit_to_bool(x, solver),
        UnaryOp::AssumeProp => primop::assume_prop(x, solver),
        UnaryOp::NotBool => primop::not_bool(x, solver),
        UnaryOp::NegInt => primop::neg_int(x, solver),
        UnaryOp::AbsInt => primop::abs_int(x, solver),
        UnaryOp::Pow2 => primop::pow2(x, solver),
        UnaryOp::NotBits => primop::not_bits(x, solver),
        UnaryOp::Length => primop_bits::length(x, solver),
        UnaryOp::Zeros => primop_bits::zeros(x, solver),
        UnaryOp::Ones => primop_bits::ones(x, solver),
        UnaryOp::SailUnsigned => primop_bits::sail_unsigned(x, solver),
        UnaryOp::SailSigned => primop_bits::sail_signed(x, solver),
        UnaryOp::Putchar => primop_misc::putchar(x, solver),
        UnaryOp::Print => primop_misc::print(x, solver),
        UnaryOp::Prerr => primop_misc::prerr(x, solver),
        UnaryOp::PrintEndline => primop_misc::print_endline(x, solver),
        UnaryOp::PrerrEndline => primop_misc::prerr_endline(x, solver),
        UnaryOp::CountLeadingZeros => primop_bits::count_leading_zeros(x, solver),
        UnaryOp::UndefinedBitvector => primop_misc::undefined_bitvector(x, solver),
        UnaryOp::UndefinedBool => primop_misc::undefined_bool(x, solver),
        UnaryOp::UndefinedInt => primop_misc::undefined_int(x, solver),
        UnaryOp::UndefinedNat => primop_misc::undefined_nat(x, solver),
        UnaryOp::UndefinedUnit => primop_misc::undefined_unit(x, solver),
        UnaryOp::UndefinedString => primop_misc::undefined_string(x, solver),
        UnaryOp::OneIf => primop_misc::one_if(x, solver),
        UnaryOp::ZeroIf => primop_misc::zero_if(x, solver),
        UnaryOp::Choice => primop_misc::choice(x, solver),
        UnaryOp::BadRead => primop_misc::bad_read(x, solver),
        UnaryOp::BadWrite => primop_misc::bad_write(x, solver),
        UnaryOp::HexStr => primop_misc::hex_str(x, solver),
        UnaryOp::DecStr => primop_misc::dec_str(x, solver),
        UnaryOp::StringLength => primop_misc::string_length(x, solver),
        UnaryOp::StringOfBits => primop_misc::string_of_bits(x, solver),
        UnaryOp::DecimalStringOfBits => primop_misc::decimal_string_of_bits(x, solver),
        UnaryOp::StringOfInt => primop_misc::string_of_int(x, solver),
        UnaryOp::CycleCount => primop_misc::cycle_count(x, solver),
        UnaryOp::GetCycleCount => primop_misc::get_cycle_count(x, solver),
        UnaryOp::GetVerbosity => primop_misc::get_verbosity(x, solver),
        UnaryOp::Sleeping => primop_misc::sleeping(x, solver),
        UnaryOp::SleepRequest => primop_misc::sleep_request(x, solver),
        UnaryOp::WakeupRequest => primop_misc::wakeup_request(x, solver),
        UnaryOp::InstrAnnounce => primop_misc::instr_announce(x, solver),
        UnaryOp::Barrier => primop_misc::barrier(x, solver),
        UnaryOp::Monomorphize => primop_misc::monomorphize(x, solver),
    }
}

/// The dispatched binary operation's own contract, selected by tag.
pub open spec fn binary_dispatch_post(
    op: BinaryOp,
    x: Val,
    y: Val,
    r: Result<Val, ExecError>,
    pre: Solver,
    post: Solver,
) -> bool {
    match op {
                BinaryOp::OptimisticAssert => primop::optimistic_assert_post(x@, y@, r, pre, post),
                BinaryOp::PessimisticAssert => primop::pessimistic_assert_post(x@, y@, r, pre, post),
                BinaryOp::AndBool => primop::and_bool_post(x@, y@, r, pre, post),
                BinaryOp::OrBool => primop::or_bool_post(x@, y@, r, pre, post),
                BinaryOp::EqInt => primop::eq_int_post(x@, y@, r, pre, post),
                BinaryOp::EqBool => primop::eq_bool_post(x@, y@, r, pre, post),
                BinaryOp::LteqInt => primop::lteq_int_post(x@, y@, r, pre, post),
                BinaryOp::GteqInt => primop::gteq_int_post(x@, y@, r, pre, post),
                BinaryOp::LtInt => primop::lt_int_post(x@, y@, r, pre, post),
                BinaryOp::GtInt => primop::gt_int_post(x@, y@, r, pre, post),
                BinaryOp::AddInt => primop::add_int_post(x@, y@, r, pre, post),
                BinaryOp::SubInt => primop::sub_int_post(x@, y@, r, pre, post),
                BinaryOp::SubNat => primop::sub_nat_post(x@, y@, r, pre, post),
                BinaryOp::MultInt => primop::mult_int_post(x@, y@, r, pre, post),
                BinaryOp::TdivInt => primop::tdiv_int_post(x@, y@, r, pre, post),
                BinaryOp::TmodInt => primop::tmod_int_post(x@, y@, r, pre, post),
                BinaryOp::PowInt => primop::pow_int_post(x@, y@, r, pre, post),
                BinaryOp::ShlInt => primop::shl_int_post(x@, y@, r, pre, post),
                BinaryOp::ShrInt => primop::shr_int_post(x@, y@, r, pre, post),
                BinaryOp::ShlMachInt => primop::shl_mach_int_post(x@, y@, r, pre, post),
                BinaryOp::ShrMachInt => primop::shr_mach_int_post(x@, y@, r, pre, post),
                BinaryOp::MaxInt => primop::max_int_post(x@, y@, r, pre, post),
                BinaryOp::MinInt => primop::min_int_post(x@, y@, r, pre, post),
                BinaryOp::EqBits => primop::eq_bits_post(x@, y@, r, pre, post),
                BinaryOp::NeqBits => primop::neq_bits_post(x@, y@, r, pre, post),
                BinaryOp::XorBits => primop::xor_bits_post(x@, y@, r, pre, post),
                BinaryOp::OrBits => primop::or_bits_post(x@, y@, r, pre, post),
                BinaryOp::AndBits => primop::and_bits_post(x@, y@, r, pre, post),
                BinaryOp::AddBits => primop::add_bits_post(x@, y@, r, pre, post),
                BinaryOp::SubBits => primop::sub_bits_post(x@, y@, r, pre, post),
                BinaryOp::AddBitsInt => primop_bits::add_bits_int_post(x@, y@, r, pre, post),
                BinaryOp::SubBitsInt => primop_bits::sub_bits_int_post(x@, y@, r, pre, post),
                BinaryOp::AlignBits => primop_bits::align_bits_post(x@, y@, r, pre, post),
                BinaryOp::UndefinedRange => primop_misc::undefined_range_post(x@, y@, r, pre, post),
                BinaryOp::ZeroExtend => primop_bits::zero_extend_post(x@, y@, r, pre, post),
                BinaryOp::SignExtend => primop_bits::sign_extend_post(x@, y@, r, pre, post),
                BinaryOp::SailTruncate => primop_bits::sail_truncate_post(x@, y@, r, pre, post),
                BinaryOp::SailTruncateLsb => primop_bits::sail_truncate_lsb_post(x@, y@, r, pre, post),
                BinaryOp::ReplicateBits => primop_bits::replicate_bits_post(x@, y@, r, pre, post),
                BinaryOp::Shiftr => primop_bits::shiftr_post(x@, y@, r, pre, post),
                BinaryOp::Shiftl => primop_bits::shiftl_post(x@, y@, r, pre, post),
                BinaryOp::ArithShiftr => primop_bits::arith_shiftr_post(x@, y@, r, pre, post),
                BinaryOp::ShiftBitsRight => primop_bits::shift_bits_right_post(x@, y@, r, pre, post),
                BinaryOp::ShiftBitsLeft => primop_bits::shift_bits_left_post(x@, y@, r, pre, post),
                BinaryOp::Append => primop_bits::append_post(x@, y@, r, pre, post),
                BinaryOp::VectorAccess => primop_bits::vector_access_post(x@, y@, r, pre, post),
                BinaryOp::EqAnything => primop::eq_anything_post(x@, y@, r, pre, post),
                BinaryOp::EqString => primop_misc::eq_string_post(x@, y@, r, pre, post),
                BinaryOp::ConcatStr => primop_misc::concat_str_post(x@, y@, r, pre, post),
                BinaryOp::StringStartswith => primop_misc::string_startswith_post(x@, y@, r, pre, post),
                BinaryOp::StringDrop => primop_misc::string_drop_post(x@, y@, r, pre, post),
                BinaryOp::StringTake => primop_misc::string_take_post(x@, y@, r, pre, post),
                BinaryOp::Cons => primop_misc::cons_post(x@, y@, r, pre, post),
                BinaryOp::UndefinedVector => primop_misc::undefined_vector_post(x@, y@, r, pre, post),
                BinaryOp::PrintString => primop_misc::print_string_post(x@, y@, r, pre, post),
                BinaryOp::PrerrString => primop_misc::prerr_string_post(x@, y@, r, pre, post),
                BinaryOp::PrintInt => primop_misc::print_int_post(x@, y@, r, pre, post),
                BinaryOp::PrerrInt => primop_misc::prerr_int_post(x@, y@, r, pre, post),
                BinaryOp::PrintBits => primop_misc::print_bits_post(x@, y@, r, pre, post),
                BinaryOp::PrerrBits => primop_misc::prerr_bits_post(x@, y@, r, pre, post),
                BinaryOp::BranchAnnounce => primop_misc::branch_announce_post(x@, y@, r, pre, post),
                BinaryOp::MarkRegister => primop_misc::mark_register_post(x@, y@, r, pre, post),
                BinaryOp::OpEq => primop::op_eq_post(x@, y@, r, pre, post),
                BinaryOp::OpNeq => primop::op_neq_post(x@, y@, r, pre, post),
    }
}

/// Run a binary operation; the named operation's postcondition holds of
/// the result.
pub fn call_binary(op: &BinaryOp, x: Val, y: Val, solver: &mut Solver) -> (r: Result<
    Val,
    ExecError,
>)
    requires
        old(solver).wf(),
        old(solver).next_sym() + 16 < u32::MAX,
        abs_wf(x@),
        abs_wf(y@),
        binary_req(*op, x@, y@),
    ensures
        final(solver).wf(),
        binary_dispatch_post(*op, x, y, r, *old(solver), *final(solver)),
{
    match op {
        BinaryOp::OptimisticAssert => primop::optimistic_assert(x, y, solver),
        BinaryOp::PessimisticAssert => primop::pessimistic_assert(x, y, solver),
        BinaryOp::AndBool => primop::and_bool(x, y, solver),
        BinaryOp::OrBool => primop::or_bool(x, y, solver),
        BinaryOp::EqInt => primop::eq_int(x, y, solver),
        BinaryOp::EqBool => primop::eq_bool(x, y, solver),
        BinaryOp::LteqInt => primop::lteq_int(x, y, solver),
        BinaryOp::GteqInt => primop::gteq_int(x, y, solver),
        BinaryOp::LtInt => primop::lt_int(x, y, solver),
        BinaryOp::GtInt => primop::gt_int(x, y, solver),
        BinaryOp::AddInt => primop::add_int(x, y, solver),
        BinaryOp::SubInt => primop::sub_int(x, y, solver),
        BinaryOp::SubNat => primop::sub_nat(x, y, solver),
        BinaryOp::MultInt => primop::mult_int(x, y, solver),
        BinaryOp::TdivInt => primop::tdiv_int(x, y, solver),
        BinaryOp::TmodInt => primop::tmod_int(x, y, solver),
        BinaryOp::PowInt => primop::pow_int(x, y, solver),
        BinaryOp::ShlInt => primop::shl_int(x, y, solver),
        BinaryOp::ShrInt => primop::shr_int(x, y, solver),
        BinaryOp::ShlMachInt => primop::shl_mach_int(x, y, solver),
        BinaryOp::ShrMachInt => primop::shr_mach_int(x, y, solver),
        BinaryOp::MaxInt => primop::max_int(x, y, solver),
        BinaryOp::MinInt => primop::min_int(x, y, solver),
        BinaryOp::EqBits => primop::eq_bits(x, y, solver),
        BinaryOp::NeqBits => primop::neq_bits(x, y, solver),
        BinaryOp::XorBits => primop::xor_bits(x, y, solver),
        BinaryOp::OrBits => primop::or_bits(x, y, solver),
        BinaryOp::AndBits => primop::and_bits(x, y, solver),
        BinaryOp::AddBits => primop::add_bits(x, y, solver),
        BinaryOp::SubBits => primop::sub_bits(x, y, solver),
        BinaryOp::AddBitsInt => primop_bits::add_bits_int(x, y, solver),
        BinaryOp::SubBitsInt => primop_bits::sub_bits_int(x, y, solver),
        BinaryOp::AlignBits => primop_bits::align_bits(x, y, solver),
        BinaryOp::UndefinedRange => primop_misc::undefined_range(x, y, solver),
        BinaryOp::ZeroExtend => primop_bits::zero_extend(x, y, solver),
        BinaryOp::SignExtend => primop_bits::sign_extend(x, y, solver),
        BinaryOp::SailTruncate => primop_bits::sail_truncate(x, y, solver),
        BinaryOp::SailTruncateLsb => primop_bits::sail_truncate_lsb(x, y, solver),
        BinaryOp::ReplicateBits => primop_bits::replicate_bits(x, y, solver),
        BinaryOp::Shiftr => primop_bits::shiftr(x, y, solver),
        BinaryOp::Shiftl => primop_bits::shiftl(x, y, solver),
        BinaryOp::ArithShiftr => primop_bits::arith_shiftr(x, y, solver),
        BinaryOp::ShiftBitsRight => primop_bits::shift_bits_right(x, y, solver),
        BinaryOp::ShiftBitsLeft => primop_bits::shift_bits_left(x, y, solver),
        BinaryOp::Append => primop_bits::append(x, y, solver),
        BinaryOp::VectorAccess => primop_bits::vector_access(x, y, solver),
        BinaryOp::EqAnything => primop::eq_anything(&x, &y, solver),
        BinaryOp::EqString => primop_misc::eq_string(x, y, solver),
        BinaryOp::ConcatStr => primop_misc::concat_str(x, y, solver),
        BinaryOp::StringStartswith => primop_misc::string_startswith(x, y, solver),
        BinaryOp::StringDrop => primop_misc::string_drop(x, y, solver),
        BinaryOp::StringTake => primop_misc::string_take(x, y, solver),
        BinaryOp::Cons => primop_misc::cons(x, y, solver),
        BinaryOp::UndefinedVector => primop_misc::undefined_vector(x, y, solver),
        BinaryOp::PrintString => primop_misc::print_string(x, y, solver),
        BinaryOp::PrerrString => primop_misc::prerr_string(x, y, solver),
        BinaryOp::PrintInt => primop_misc::print_int(x, y, solver),
        BinaryOp::PrerrInt => primop_misc::prerr_int(x, y, solver),
        BinaryOp::PrintBits => primop_misc::print_bits(x, y, solver),
        BinaryOp::PrerrBits => primop_misc::prerr_bits(x, y, solver),
        BinaryOp::BranchAnnounce => primop_misc::branch_announce(x, y, solver),
        BinaryOp::MarkRegister => primop_misc::mark_register(x, y, solver),
        BinaryOp::OpEq => primop::op_eq(x, y, solver),
        BinaryOp::OpNeq => primop::op_neq(x, y, solver),
    }
}

/// Extract `length` bits of a bit vector at a position: the general slice
/// form. The argument list is the bit vector, the position and the length.
pub fn slice(args: Vec<Val>, solver: &mut Solver, _frame: &mut LocalFrame) -> (r: Result<
    Val,
    ExecError,
>)
    requires
        old(solver).wf(),
        old(solver).next_sym() < u32::MAX,
        forall|i: int| 0 <= i < args@.len() ==> abs_wf((#[trigger] args@[i])@),
    ensures
        slice_args_post(args@, r, *old(solver), *final(solver)),
{
    if args.len() != 3 {
        return Err(primop::type_error("slice"));
    }
    let bits = clone_val(&args[0]);
    let from = clone_val(&args[1]);
    let length = clone_val(&args[2]);
    primop_bits::slice_internal(bits, from, length, solver)
}

/// Extract the bits between two positions: the subrange form.
pub fn subrange(args: Vec<Val>, solver: &mut Solver, _frame: &mut LocalFrame) -> (r: Result<
    Val,
    ExecError,
>)
    requires
        old(solver).wf(),
        old(solver).next_sym() < u32::MAX,
        forall|i: int| 0 <= i < args@.len() ==> abs_wf((#[trigger] args@[i])@),
    ensures
        subrange_args_post(args@, r, *old(solver), *final(solver)),
{
    if args.len() != 3 {
        return Err(primop::type_error("vector_subrange"));
    }
    let bits = clone_val(&args[0]);
    let high = clone_val(&args[1]);
    let low = clone_val(&args[2]);
    primop_bits::subrange_internal(bits, high, low, solver)
}

/// Overwrite part of a bit vector: the IR form carries two length
/// arguments first, which the operation does not need.
pub fn set_slice(args: Vec<Val>, solver: &mut Solver, _frame: &mut LocalFrame) -> (r: Result<
    Val,
    ExecError,
>)
    requires
        old(solver).wf(),
        old(solver).next_sym() < u32::MAX,
        forall|i: int| 0 <= i < args@.len() ==> abs_wf((#[trigger] args@[i])@),
    ensures
        set_slice_args_post(args@, r, *old(solver), *final(solver)),
{
    if args.len() != 5 {
        return Err(primop::type_error("set_slice"));
    }
    let bits = clone_val(&args[2]);
    let n = clone_val(&args[3]);
    let update = clone_val(&args[4]);
    primop_bits::set_slice_internal(bits, n, update, solver)
}

/// Overwrite part of an integer: the IR form carries one length argument
/// first, which the operation does not need.
pub fn set_slice_int(args: Vec<Val>, solver: &mut Solver, _frame: &mut LocalFrame) -> (r: Result<
    Val,
    ExecError,
>)
    requires
        old(solver).wf(),
        old(solver).next_sym() < u32::MAX,
        forall|i: int| 0 <= i < args@.len() ==> abs_wf((#[trigger] args@[i])@),
    ensures
        set_slice_int_args_post(args@, r, *old(solver), *final(solver)),
{
    if args.len() != 4 {
        return Err(primop::type_error("set_slice_int"));
    }
    let xint = clone_val(&args[1]);
    let n = clone_val(&args[2]);
    let update = clone_val(&args[3]);
    primop_bits::set_slice_int_internal(xint, n, update, solver)
}

/// Extract a slice of an integer's two's complement representation.
pub fn get_slice_int(args: Vec<Val>, solver: &mut Solver, _frame: &mut LocalFrame) -> (r: Result<
    Val,
    ExecError,
>)
    requires
        old(solver).wf(),
        old(solver).next_sym() < u32::MAX,
        forall|i: int| 0 <= i < args@.len() ==> abs_wf((#[trigger] args@[i])@),
    ensures
        get_slice_int_args_post(args@, r, *old(solver), *final(solver)),
{
    if args.len() != 3 {
        return Err(primop::type_error("get_slice_int"));
    }
    let length = clone_val(&args[0]);
    let n = clone_val(&args[1]);
    let from = clone_val(&args[2]);
    primop_bits::get_slice_int_internal(length, n, from, solver)
}

/// Update one element of a vector; on bit vectors this is a one-bit set
/// slice, and a symbolic index turns every element into a selector.
#[verifier::loop_isolation(false)]
#[verifier::loop_isolation(false)]
pub fn vector_update(args: Vec<Val>, solver: &mut Solver, _frame: &mut LocalFrame) -> (r: Result<
    Val,
    ExecError,
>)
    requires
        old(solver).wf(),
        old(solver).next_sym() + 2 < u32::MAX,
        forall|i: int| 0 <= i < args@.len() ==> abs_wf((#[trigger] args@[i])@),
    ensures
        vector_update_args_post(args@, r, *old(solver), *final(solver)),
{
    if args.len() != 3 {
        return Err(primop::type_error("vector_update"));
    }
    let arg0 = clone_val(&args[0]);
    match arg0 {
        Val::Vector(mut vec) => {
            proof {
                crate::value::lemma_vals_view_len(vec@);
            }
            match &args[1] {
                Val::I128(n) => {
                    let n = *n;
                    if 0 <= n && n < vec.len() as i128 {
                        let elem = clone_val(&args[2]);
                        let ghost before = vec@;
                        vec.set(n as usize, elem);
                        proof {
                            crate::value::lemma_vals_view_update(before, n as int, vec@[n as int]);
                        }
                        Ok(Val::Vector(vec))
                    } else {
                        Err(ExecError::OutOfBounds("vector_update".to_owned()))
                    }
                },
                Val::I64(n) => {
                    let n = *n;
                    if 0 <= n && (n as i128) < vec.len() as i128 {
                        let elem = clone_val(&args[2]);
                        let ghost before = vec@;
                        vec.set(n as usize, elem);
                        proof {
                            crate::value::lemma_vals_view_update(before, n as int, vec@[n as int]);
                        }
                        Ok(Val::Vector(vec))
                    } else {
                        Err(ExecError::OutOfBounds("vector_update".to_owned()))
                    }
                },
                Val::Symbolic(n) => {
                    let n = *n;
                    proof {
                        assert forall|j: int| 0 <= j < vec@.len() implies #[trigger] vals_view(
                            vec@,
                        )[j] == crate::value::val_view(vec@[j]) by {
                            crate::value::lemma_vals_view_index(vec@, j);
                        }
                    }
                    let ghost items = vals_view(vec@);
                    let ghost good = primop::is_smt_base(args@[2]@) && (forall|j: int|
                        0 <= j < items.len() ==> primop::is_smt_base(#[trigger] items[j]))
                        && old(solver).next_sym() + items.len() + 2 < u32::MAX && items.len()
                        <= u64::MAX;
                    // every element becomes a selector between its old value
                    // and the update
                    let mut out: Vec<Val> = Vec::new();
                    let mut i: usize = 0;
                    let len = vec.len();
                    while i < len
                        invariant
                            solver.wf(),
                            primop::solver_evolves(*old(solver), *solver),
                            i <= len,
                            len == vec@.len(),
                            out@.len() == i as int,
                            forall|j: int| 0 <= j < i ==> (#[trigger] out@[j]) is Symbolic,
                            solver.trace().len() == old(solver).trace().len() + i,
                            good ==> solver.next_sym() == old(solver).next_sym() + i,
                            forall|j: int|
                                0 <= j < i ==> {
                                    &&& crate::value::val_view(#[trigger] out@[j]) matches
                                        AbsVal::Symbolic(s) && solver.trace()[old(
                                        solver,
                                    ).trace().len() + j] matches Def::DefineConst(s2, e) && s2
                                        == s && (e matches Exp::Ite(c, t, el) && (
                                    *c matches Exp::Eq(a, b) && *a == Exp::Var(n) && *b
                                        == Exp::Bits64(j as u64, 128)) && primop::is_smt_value(
                                        args@[2]@,
                                        *t,
                                    ) && primop::is_smt_value(items[j], *el))
                                },
                        decreases len - i,
                    {
                        if solver.remaining_symbols() < 2 {
                            proof {
                                if good {
                                    assert(false);
                                }
                            }
                            return Err(primop::type_error("vector_update"));
                        }
                        let new_exp = match primop::smt_value(&args[2]) {
                            Ok(e) => e,
                            Err(e) => {
                                proof {
                                    if good {
                                        assert(false);
                                    }
                                }
                                return Err(e);
                            },
                        };
                        let old_exp = match primop::smt_value(&vec[i]) {
                            Ok(e) => e,
                            Err(e) => {
                                proof {
                                    if good {
                                        assert(primop::is_smt_base(items[i as int]));
                                        assert(false);
                                    }
                                }
                                return Err(e);
                            },
                        };
                        if (i as u128) > (u64::MAX as u128) {
                            proof {
                                if good {
                                    assert(items.len() == vec@.len());
                                    assert((i as int) < items.len());
                                    assert(false);
                                }
                            }
                            return Err(primop::type_error("vector_update"));
                        }
                        let ghost mid = *solver;
                        let sel = primop::define_result(
                            solver,
                            crate::smt::Exp::Ite(
                                Box::new(
                                    crate::smt::Exp::Eq(
                                        Box::new(crate::smt::Exp::Var(n)),
                                        Box::new(crate::smt::Exp::Bits64(i as u64, 128)),
                                    ),
                                ),
                                Box::new(new_exp),
                                Box::new(old_exp),
                            ),
                        );
                        proof {
                            assert(old(solver).trace().is_prefix_of(solver.trace())) by {
                                assert(solver.trace().subrange(
                                    0,
                                    old(solver).trace().len() as int,
                                ) =~= old(solver).trace());
                            }
                        }
                        let ghost before_out = out@;
                        out.push(sel);
                        proof {
                            assert(out@[i as int] == sel);
                            crate::value::lemma_vals_view_len(out@);
                            assert forall|j: int| 0 <= j <= i implies #[trigger] vals_view(
                                out@,
                            )[j] == crate::value::val_view(out@[j]) by {
                                crate::value::lemma_vals_view_index(out@, j);
                            }
                            assert forall|j: int| 0 <= j < i implies out@[j]
                                == before_out[j] by {
                            }
                            assert(mid.trace().len() == old(solver).trace().len() + i);
                            assert forall|j: int|
                                0 <= j < i implies #[trigger] solver.trace()[old(
                                solver,
                            ).trace().len() + j] == mid.trace()[old(solver).trace().len()
                                + j] by {
                                assert(solver.trace().subrange(0, mid.trace().len() as int)
                                    == mid.trace());
                                assert(solver.trace().subrange(0, mid.trace().len() as int)[old(
                                    solver,
                                ).trace().len() + j] == solver.trace()[old(solver).trace().len()
                                    + j]);
                            }
                            assert(solver.trace()[old(solver).trace().len() + i as int]
                                == solver.trace().last());
                            assert(primop::last_exp(*solver) == solver.trace().last()->DefineConst_1);
                            assert(crate::value::val_view(sel) matches AbsVal::Symbolic(s)
                                && solver.trace().last() matches Def::DefineConst(s2, _) && s2
                                == s);
                            assert(crate::value::val_view(out@[i as int]) matches
                                AbsVal::Symbolic(s));
                            assert(solver.trace()[old(solver).trace().len() + i as int] matches
                                Def::DefineConst(s2, e) && (e matches Exp::Ite(c, t, el)));
                            assert(solver.trace()[old(solver).trace().len() + i as int] matches
                                Def::DefineConst(s2, e) && (e matches Exp::Ite(c, t, el) && (
                            *c matches Exp::Eq(a, b) && *a == Exp::Var(n) && *b == Exp::Bits64(
                                i as u64,
                                128,
                            ))));
                            assert(solver.trace()[old(solver).trace().len() + i as int] matches
                                Def::DefineConst(s2, e) && (e matches Exp::Ite(c, t, el)
                                && primop::is_smt_value(args@[2]@, *t) && primop::is_smt_value(
                                items[i as int],
                                *el,
                            )));
                        }
                        i += 1;
                    }
                    proof {
                        crate::value::lemma_vals_view_len(out@);
                        assert forall|j: int|
                            0 <= j < out@.len() implies #[trigger] vals_view(out@)[j]
                            == crate::value::val_view(out@[j]) by {
                            crate::value::lemma_vals_view_index(out@, j);
                        }
                        assert(vals_view(out@).len() == items.len());
                    }
                    Ok(Val::Vector(out))
                },
                _ => Err(primop::type_error("vector_update")),
            }
        },
        Val::Bits(_) => {
            let n = clone_val(&args[1]);
            let update = clone_val(&args[2]);
            primop_bits::set_slice_internal(arg0, n, update, solver)
        },
        Val::Symbolic(v) => {
            if solver.is_bitvector(v) {
                let n = clone_val(&args[1]);
                let update = clone_val(&args[2]);
                primop_bits::set_slice_internal(Val::Symbolic(v), n, update, solver)
            } else {
                Err(primop::type_error("vector_update"))
            }
        },
        _ => Err(primop::type_error("vector_update")),
    }
}

/// Update a subrange of a bit vector: a set slice with the IR's argument
/// order.
pub fn vector_update_subrange(args: Vec<Val>, solver: &mut Solver, _frame: &mut LocalFrame) -> (r:
    Result<Val, ExecError>)
    requires
        old(solver).wf(),
        old(solver).next_sym() < u32::MAX,
        forall|i: int| 0 <= i < args@.len() ==> abs_wf((#[trigger] args@[i])@),
    ensures
        vector_update_subrange_args_post(args@, r, *old(solver), *final(solver)),
{
    if args.len() != 4 {
        return Err(primop::type_error("vector_update_subrange"));
    }
    let bits = clone_val(&args[0]);
    let n = clone_val(&args[2]);
    let update = clone_val(&args[3]);
    primop_bits::set_slice_internal(bits, n, update, solver)
}

/// Update one bit of a bit vector: a set slice with a one-bit update.
pub fn bitvector_update(args: Vec<Val>, solver: &mut Solver, _frame: &mut LocalFrame) -> (r:
    Result<Val, ExecError>)
    requires
        old(solver).wf(),
        old(solver).next_sym() < u32::MAX,
        forall|i: int| 0 <= i < args@.len() ==> abs_wf((#[trigger] args@[i])@),
    ensures
        bitvector_update_args_post(args@, r, *old(solver), *final(solver)),
{
    if args.len() != 3 {
        return Err(primop::type_error("bitvector_update"));
    }
    let bits = clone_val(&args[0]);
    let n = clone_val(&args[1]);
    let update = clone_val(&args[2]);
    primop_bits::op_set_slice(bits, n, update, solver)
}


/// The contract of the memory-read argument forms: a fresh bit-vector
/// symbol of eight bits per byte, published as a read event carrying the
/// argument views.
pub open spec fn read_args_post(
    read_kind: AbsVal,
    address: AbsVal,
    bytes: AbsVal,
    r: Result<Val, ExecError>,
    pre: Solver,
    post: Solver,
) -> bool {
    &&& post.wf()
    &&& match bytes {
        AbsVal::I128(n) => if 0 < n <= 0x1fffffff {
            &&& r matches Ok(v) && (v matches Val::Symbolic(s) && s == pre.next_sym())
            &&& post.next_sym() == pre.next_sym() + 1
            &&& post.trace().len() == pre.trace().len() + 1
            &&& post.trace().last() matches crate::smt::Def::DeclareConst(s, t) && s
                == pre.next_sym() && t == crate::smt::SmtTy::BitVec((8 * n) as u32)
            &&& post.events().len() == pre.events().len() + 1
            &&& (post.events().last() matches crate::smt::Event::ReadMem {
                value,
                read_kind: rk,
                address: a,
                bytes: b,
            } && value@ is Symbolic && rk@ == read_kind && a@ == address && b == n)
        } else {
            args_type_error(r, pre, post)
        },
        AbsVal::Symbolic(_) => (r matches Err(e) && e is SymbolicLength)
            && primop::solver_unchanged(pre, post),
        _ => args_type_error(r, pre, post),
    }
}

/// The contract of the memory-write argument forms: a fresh boolean
/// success symbol, published as a write event carrying the argument views.
pub open spec fn write_args_post(
    write_kind: AbsVal,
    address: AbsVal,
    data: AbsVal,
    bytes: AbsVal,
    r: Result<Val, ExecError>,
    pre: Solver,
    post: Solver,
) -> bool {
    &&& post.wf()
    &&& match bytes {
        AbsVal::I128(n) => if 0 < n <= 0x1fffffff {
            &&& r matches Ok(v) && (v matches Val::Symbolic(s) && s == pre.next_sym())
            &&& post.next_sym() == pre.next_sym() + 1
            &&& post.trace().len() == pre.trace().len() + 1
            &&& post.trace().last() matches crate::smt::Def::DeclareConst(s, t) && s
                == pre.next_sym() && t == crate::smt::SmtTy::Bool
            &&& post.events().len() == pre.events().len() + 1
            &&& (post.events().last() matches crate::smt::Event::WriteMem {
                value,
                write_kind: wk,
                address: a,
                data: d,
                bytes: b,
            } && value == pre.next_sym() && wk@ == write_kind && a@ == address && d@ == data && b
                == n)
        } else {
            args_type_error(r, pre, post)
        },
        AbsVal::Symbolic(_) => (r matches Err(e) && e is SymbolicLength)
            && primop::solver_unchanged(pre, post),
        _ => args_type_error(r, pre, post),
    }
}

/// Read memory: the read kind, the address and the byte count come from
/// the argument list.
pub fn read_mem(args: Vec<Val>, solver: &mut Solver, frame: &mut LocalFrame) -> (r: Result<
    Val,
    ExecError,
>)
    requires
        old(solver).wf(),
        old(solver).next_sym() < u32::MAX,
    ensures
        args@.len() == 4 ==> read_args_post(
            args@[0]@,
            args@[2]@,
            args@[3]@,
            r,
            *old(solver),
            *final(solver),
        ),
        args@.len() != 4 ==> args_type_error(r, *old(solver), *final(solver)),
{
    if args.len() != 4 {
        return Err(primop::type_error("read_mem"));
    }
    let read_kind = clone_val(&args[0]);
    let address = clone_val(&args[2]);
    let bytes = clone_val(&args[3]);
    frame.memory_mut().read(read_kind, address, bytes, solver, false)
}

/// Read tagged memory.
pub fn read_memt(args: Vec<Val>, solver: &mut Solver, frame: &mut LocalFrame) -> (r: Result<
    Val,
    ExecError,
>)
    requires
        old(solver).wf(),
        old(solver).next_sym() < u32::MAX,
    ensures
        args@.len() == 3 ==> read_args_post(
            args@[0]@,
            args@[1]@,
            args@[2]@,
            r,
            *old(solver),
            *final(solver),
        ),
        args@.len() != 3 ==> args_type_error(r, *old(solver), *final(solver)),
{
    if args.len() != 3 {
        return Err(primop::type_error("read_memt"));
    }
    let read_kind = clone_val(&args[0]);
    let address = clone_val(&args[1]);
    let bytes = clone_val(&args[2]);
    frame.memory_mut().read(read_kind, address, bytes, solver, true)
}

/// Write memory: the write kind, the address, the byte count and the data
/// come from the argument list.
pub fn write_mem(args: Vec<Val>, solver: &mut Solver, frame: &mut LocalFrame) -> (r: Result<
    Val,
    ExecError,
>)
    requires
        old(solver).wf(),
        old(solver).next_sym() < u32::MAX,
    ensures
        args@.len() == 5 ==> write_args_post(
            args@[0]@,
            args@[2]@,
            args@[4]@,
            args@[3]@,
            r,
            *old(solver),
            *final(solver),
        ),
        args@.len() != 5 ==> args_type_error(r, *old(solver), *final(solver)),
{
    if args.len() != 5 {
        return Err(primop::type_error("write_mem"));
    }
    let write_kind = clone_val(&args[0]);
    let address = clone_val(&args[2]);
    let bytes = clone_val(&args[3]);
    let data = clone_val(&args[4]);
    frame.memory_mut().write(write_kind, address, data, bytes, solver)
}

/// Write tagged memory.
pub fn write_memt(args: Vec<Val>, solver: &mut Solver, frame: &mut LocalFrame) -> (r: Result<
    Val,
    ExecError,
>)
    requires
        old(solver).wf(),
        old(solver).next_sym() < u32::MAX,
    ensures
        args@.len() == 5 ==> write_args_post(
            args@[0]@,
            args@[1]@,
            args@[3]@,
            args@[2]@,
            r,
            *old(solver),
            *final(solver),
        ),
        args@.len() != 5 ==> args_type_error(r, *old(solver), *final(solver)),
{
    if args.len() != 5 {
        return Err(primop::type_error("write_memt"));
    }
    let write_kind = clone_val(&args[0]);
    let address = clone_val(&args[1]);
    let bytes = clone_val(&args[2]);
    let data = clone_val(&args[3]);
    frame.memory_mut().write(write_kind, address, data, bytes, solver)
}

/// Announce a write's effective address: nothing to record.
pub fn write_mem_ea(_args: Vec<Val>, _solver: &mut Solver, _frame: &mut LocalFrame) -> (r: Result<
    Val,
    ExecError,
>)
    requires
        old(_solver).wf(),
    ensures
        final(_solver).wf(),
        crate::primop::solver_unchanged(*old(_solver), *final(_solver)),
        r matches Ok(v) && v@ is Unit,
{
    Ok(Val::Unit)
}

/// Publish a cache maintenance event carrying the operation kind and the
/// address.
pub fn cache_maintenance(args: Vec<Val>, solver: &mut Solver, _frame: &mut LocalFrame) -> (r:
    Result<Val, ExecError>)
    requires
        old(solver).wf(),
    ensures
        final(solver).wf(),
        args@.len() == 3 ==> (r matches Ok(v) && v@ is Unit && final(solver).events().len() == old(
            solver,
        ).events().len() + 1 && (final(solver).events().last()
            matches crate::smt::Event::CacheOp { cache_op_kind, address } && cache_op_kind@
            == args@[0]@ && address@ == args@[2]@) && final(solver).trace() == old(solver).trace()
            && final(solver).next_sym() == old(solver).next_sym()),
        args@.len() != 3 ==> args_type_error(r, *old(solver), *final(solver)),
{
    if args.len() != 3 {
        return Err(primop::type_error("cache_maintenance"));
    }
    let cache_op_kind = clone_val(&args[0]);
    let address = clone_val(&args[2]);
    solver.add_event(crate::smt::Event::CacheOp { cache_op_kind, address });
    Ok(Val::Unit)
}

/// Mark a pair of registers: the arguments are the two register references
/// and the mark.
pub fn mark_register_pair(args: Vec<Val>, solver: &mut Solver, _frame: &mut LocalFrame) -> (r:
    Result<Val, ExecError>)
    requires
        old(solver).wf(),
    ensures
        mark_register_pair_args_post(args@, r, *old(solver), *final(solver)),
{
    if args.len() != 3 {
        return Err(primop::type_error("mark_register_pair"));
    }
    let r1 = clone_val(&args[0]);
    let r2 = clone_val(&args[1]);
    let mark = clone_val(&args[2]);
    primop_misc::mark_register_pair_internal(r1, r2, mark, solver)
}

/// The dispatched variadic operation's own contract, selected by tag.
pub open spec fn variadic_dispatch_post(
    op: VariadicOp,
    args: Seq<Val>,
    r: Result<Val, ExecError>,
    pre: Solver,
    post: Solver,
) -> bool {
    match op {
                VariadicOp::Slice => slice_args_post(args, r, pre, post),
                VariadicOp::VectorSubrange => subrange_args_post(args, r, pre, post),
                VariadicOp::VectorUpdate => vector_update_args_post(args, r, pre, post),
                VariadicOp::VectorUpdateSubrange => vector_update_subrange_args_post(args, r, pre, post),
                VariadicOp::BitvectorUpdate => bitvector_update_args_post(args, r, pre, post),
                VariadicOp::SetSlice => set_slice_args_post(args, r, pre, post),
                VariadicOp::GetSliceInt => get_slice_int_args_post(args, r, pre, post),
                VariadicOp::SetSliceInt => set_slice_int_args_post(args, r, pre, post),
                VariadicOp::ReadMem => (args.len() == 4 ==> read_args_post(args[0]@, args[2]@, args[3]@, r, pre, post)) && (args.len() != 4 ==> args_type_error(r, pre, post)),
                VariadicOp::ReadMemt => (args.len() == 3 ==> read_args_post(args[0]@, args[1]@, args[2]@, r, pre, post)) && (args.len() != 3 ==> args_type_error(r, pre, post)),
                VariadicOp::WriteMem => (args.len() == 5 ==> write_args_post(args[0]@, args[2]@, args[4]@, args[3]@, r, pre, post)) && (args.len() != 5 ==> args_type_error(r, pre, post)),
                VariadicOp::WriteMemt => (args.len() == 5 ==> write_args_post(args[0]@, args[1]@, args[3]@, args[2]@, r, pre, post)) && (args.len() != 5 ==> args_type_error(r, pre, post)),
                VariadicOp::WriteMemEa => (r matches Ok(v) && v@ is Unit) && primop::solver_unchanged(pre, post),
                VariadicOp::CacheMaintenance => (args.len() == 3 ==> (r matches Ok(v) && v@ is Unit && post.events().len() == pre.events().len() + 1)) && (args.len() != 3 ==> args_type_error(r, pre, post)),
                VariadicOp::ElfEntry => primop_misc::elf_entry_post(args, r, pre, post),
                VariadicOp::Ite => primop_misc::ite_post(args, r, pre, post),
                VariadicOp::MarkRegisterPair => mark_register_pair_args_post(args, r, pre, post),
                VariadicOp::Unimplemented => primop_misc::unimplemented_post(args, r, pre, post),
    }
}

/// Run a variadic operation; the named operation's postcondition holds of
/// the result.
pub fn call_variadic(
    op: &VariadicOp,
    args: Vec<Val>,
    solver: &mut Solver,
    frame: &mut LocalFrame,
) -> (r: Result<Val, ExecError>)
    requires
        old(solver).wf(),
        old(solver).next_sym() + 16 < u32::MAX,
        forall|i: int| 0 <= i < args@.len() ==> abs_wf((#[trigger] args@[i])@),
    ensures
        final(solver).wf(),
        variadic_dispatch_post(*op, args@, r, *old(solver), *final(solver)),
{
    match op {
        VariadicOp::Slice => slice(args, solver, frame),
        VariadicOp::VectorSubrange => subrange(args, solver, frame),
        VariadicOp::VectorUpdate => vector_update(args, solver, frame),
        VariadicOp::VectorUpdateSubrange => vector_update_subrange(args, solver, frame),
        VariadicOp::BitvectorUpdate => bitvector_update(args, solver, frame),
        VariadicOp::SetSlice => set_slice(args, solver, frame),
        VariadicOp::GetSliceInt => get_slice_int(args, solver, frame),
        VariadicOp::SetSliceInt => set_slice_int(args, solver, frame),
        VariadicOp::ReadMem => read_mem(args, solver, frame),
        VariadicOp::ReadMemt => read_memt(args, solver, frame),
        VariadicOp::WriteMem => write_mem(args, solver, frame),
        VariadicOp::WriteMemt => write_memt(args, solver, frame),
        VariadicOp::WriteMemEa => write_mem_ea(args, solver, frame),
        VariadicOp::CacheMaintenance => cache_maintenance(args, solver, frame),
        VariadicOp::ElfEntry => primop_misc::elf_entry(args, solver, frame),
        VariadicOp::Ite => primop_misc::ite(args, solver, frame),
        VariadicOp::MarkRegisterPair => mark_register_pair(args, solver, frame),
        VariadicOp::Unimplemented => primop_misc::unimplemented(args, solver, frame),
    }
}

} // verus!
