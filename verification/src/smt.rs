//! The SMT solver facade.
//!
//! The evaluator never talks to a solver directly: it allocates fresh
//! symbols, appends declarations, definitions and assertions to a linear
//! trace, records per-symbol sorts, and publishes events. Satisfiability
//! verdicts come from the external solver that the embedding program runs;
//! they enter the facade through a queue of answers, so everything here is
//! an ordinary data structure.

use vstd::prelude::*;
use crate::value::{Sym, EnumMember, Val};

verus! {

/// The sort of an SMT term.
#[derive(Clone, Copy, Debug, PartialEq, Eq, Structural)]
pub enum SmtTy {
    /// The boolean sort.
    Bool,
    /// The bit-vector sort of the given width.
    BitVec(u32),
    /// The enumeration sort with the given identity.
    EnumTy(usize),
}

/// An SMT term over bit vectors, booleans and enumerations.
#[derive(Debug)]
#[verifier::ext_equal]
pub enum Exp {
    /// A symbol.
    Var(Sym),
    /// A bit-vector literal given bit by bit, least significant first.
    Bits(Vec<bool>),
    /// A bit-vector literal of up to 64 bits: value and width.
    Bits64(u64, u32),
    /// An enumeration member literal.
    Enum(EnumMember),
    /// A boolean literal.
    Bool(bool),
    Eq(Box<Exp>, Box<Exp>),
    Neq(Box<Exp>, Box<Exp>),
    And(Box<Exp>, Box<Exp>),
    Or(Box<Exp>, Box<Exp>),
    Not(Box<Exp>),
    Bvnot(Box<Exp>),
    Bvand(Box<Exp>, Box<Exp>),
    Bvor(Box<Exp>, Box<Exp>),
    Bvxor(Box<Exp>, Box<Exp>),
    Bvadd(Box<Exp>, Box<Exp>),
    Bvsub(Box<Exp>, Box<Exp>),
    Bvmul(Box<Exp>, Box<Exp>),
    Bvneg(Box<Exp>),
    Bvsdiv(Box<Exp>, Box<Exp>),
    Bvsmod(Box<Exp>, Box<Exp>),
    Bvudiv(Box<Exp>, Box<Exp>),
    Bvshl(Box<Exp>, Box<Exp>),
    Bvlshr(Box<Exp>, Box<Exp>),
    Bvashr(Box<Exp>, Box<Exp>),
    Bvslt(Box<Exp>, Box<Exp>),
    Bvsgt(Box<Exp>, Box<Exp>),
    Bvsle(Box<Exp>, Box<Exp>),
    Bvsge(Box<Exp>, Box<Exp>),
    /// Extract the bits between two positions, both inclusive, high first.
    Extract(u32, u32, Box<Exp>),
    /// Widen by the given number of zero bits.
    ZeroExtend(u32, Box<Exp>),
    /// Widen by the given number of copies of the sign bit.
    SignExtend(u32, Box<Exp>),
    /// Concatenate two bit vectors, high part first.
    Concat(Box<Exp>, Box<Exp>),
    /// If-then-else over a boolean condition.
    Ite(Box<Exp>, Box<Exp>, Box<Exp>),
}

/// Deep equality of terms: structural equality, with bit-vector literals
/// compared by their bits.
pub open spec fn exp_eq(a: Exp, b: Exp) -> bool
    decreases a,
{
    match (a, b) {
        (Exp::Var(x), Exp::Var(y)) => x == y,
        (Exp::Bits(x), Exp::Bits(y)) => x@ == y@,
        (Exp::Bits64(v1, w1), Exp::Bits64(v2, w2)) => v1 == v2 && w1 == w2,
        (Exp::Enum(x), Exp::Enum(y)) => x == y,
        (Exp::Bool(x), Exp::Bool(y)) => x == y,
        (Exp::Eq(x1, y1), Exp::Eq(x2, y2)) => exp_eq(*x1, *x2) && exp_eq(*y1, *y2),
        (Exp::Neq(x1, y1), Exp::Neq(x2, y2)) => exp_eq(*x1, *x2) && exp_eq(*y1, *y2),
        (Exp::And(x1, y1), Exp::And(x2, y2)) => exp_eq(*x1, *x2) && exp_eq(*y1, *y2),
        (Exp::Or(x1, y1), Exp::Or(x2, y2)) => exp_eq(*x1, *x2) && exp_eq(*y1, *y2),
        (Exp::Not(x1), Exp::Not(x2)) => exp_eq(*x1, *x2),
        (Exp::Bvnot(x1), Exp::Bvnot(x2)) => exp_eq(*x1, *x2),
        (Exp::Bvand(x1, y1), Exp::Bvand(x2, y2)) => exp_eq(*x1, *x2) && exp_eq(*y1, *y2),
        (Exp::Bvor(x1, y1), Exp::Bvor(x2, y2)) => exp_eq(*x1, *x2) && exp_eq(*y1, *y2),
        (Exp::Bvxor(x1, y1), Exp::Bvxor(x2, y2)) => exp_eq(*x1, *x2) && exp_eq(*y1, *y2),
        (Exp::Bvadd(x1, y1), Exp::Bvadd(x2, y2)) => exp_eq(*x1, *x2) && exp_eq(*y1, *y2),
        (Exp::Bvsub(x1, y1), Exp::Bvsub(x2, y2)) => exp_eq(*x1, *x2) && exp_eq(*y1, *y2),
        (Exp::Bvmul(x1, y1), Exp::Bvmul(x2, y2)) => exp_eq(*x1, *x2) && exp_eq(*y1, *y2),
        (Exp::Bvneg(x1), Exp::Bvneg(x2)) => exp_eq(*x1, *x2),
        (Exp::Bvsdiv(x1, y1), Exp::Bvsdiv(x2, y2)) => exp_eq(*x1, *x2) && exp_eq(*y1, *y2),
        (Exp::Bvsmod(x1, y1), Exp::Bvsmod(x2, y2)) => exp_eq(*x1, *x2) && exp_eq(*y1, *y2),
        (Exp::Bvudiv(x1, y1), Exp::Bvudiv(x2, y2)) => exp_eq(*x1, *x2) && exp_eq(*y1, *y2),
        (Exp::Bvshl(x1, y1), Exp::Bvshl(x2, y2)) => exp_eq(*x1, *x2) && exp_eq(*y1, *y2),
        (Exp::Bvlshr(x1, y1), Exp::Bvlshr(x2, y2)) => exp_eq(*x1, *x2) && exp_eq(*y1, *y2),
        (Exp::Bvashr(x1, y1), Exp::Bvashr(x2, y2)) => exp_eq(*x1, *x2) && exp_eq(*y1, *y2),
        (Exp::Bvslt(x1, y1), Exp::Bvslt(x2, y2)) => exp_eq(*x1, *x2) && exp_eq(*y1, *y2),
        (Exp::Bvsgt(x1, y1), Exp::Bvsgt(x2, y2)) => exp_eq(*x1, *x2) && exp_eq(*y1, *y2),
        (Exp::Bvsle(x1, y1), Exp::Bvsle(x2, y2)) => exp_eq(*x1, *x2) && exp_eq(*y1, *y2),
        (Exp::Bvsge(x1, y1), Exp::Bvsge(x2, y2)) => exp_eq(*x1, *x2) && exp_eq(*y1, *y2),
        (Exp::Extract(h1, l1, x1), Exp::Extract(h2, l2, x2)) => h1 == h2 && l1 == l2 && exp_eq(
            *x1,
            *x2,
        ),
        (Exp::ZeroExtend(n1, x1), Exp::ZeroExtend(n2, x2)) => n1 == n2 && exp_eq(*x1, *x2),
        (Exp::SignExtend(n1, x1), Exp::SignExtend(n2, x2)) => n1 == n2 && exp_eq(*x1, *x2),
        (Exp::Concat(x1, y1), Exp::Concat(x2, y2)) => exp_eq(*x1, *x2) && exp_eq(*y1, *y2),
        (Exp::Ite(c1, t1, e1), Exp::Ite(c2, t2, e2)) => exp_eq(*c1, *c2) && exp_eq(*t1, *t2)
            && exp_eq(*e1, *e2),
        _ => false,
    }
}

impl Clone for Exp {
    /// A deep copy, equal to the original up to [`exp_eq`].
    fn clone(&self) -> (r: Exp)
        ensures
            exp_eq(r, *self),
        decreases self,
    {
        match self {
            Exp::Var(s) => Exp::Var(*s),
            Exp::Bits(b) => Exp::Bits(clone_bits_vec(b)),
            Exp::Bits64(v, w) => Exp::Bits64(*v, *w),
            Exp::Enum(m) => Exp::Enum(*m),
            Exp::Bool(b) => Exp::Bool(*b),
            Exp::Eq(x, y) => Exp::Eq(Box::new((**x).clone()), Box::new((**y).clone())),
            Exp::Neq(x, y) => Exp::Neq(Box::new((**x).clone()), Box::new((**y).clone())),
            Exp::And(x, y) => Exp::And(Box::new((**x).clone()), Box::new((**y).clone())),
            Exp::Or(x, y) => Exp::Or(Box::new((**x).clone()), Box::new((**y).clone())),
            Exp::Not(x) => Exp::Not(Box::new((**x).clone())),
            Exp::Bvnot(x) => Exp::Bvnot(Box::new((**x).clone())),
            Exp::Bvand(x, y) => Exp::Bvand(Box::new((**x).clone()), Box::new((**y).clone())),
            Exp::Bvor(x, y) => Exp::Bvor(Box::new((**x).clone()), Box::new((**y).clone())),
            Exp::Bvxor(x, y) => Exp::Bvxor(Box::new((**x).clone()), Box::new((**y).clone())),
            Exp::Bvadd(x, y) => Exp::Bvadd(Box::new((**x).clone()), Box::new((**y).clone())),
            Exp::Bvsub(x, y) => Exp::Bvsub(Box::new((**x).clone()), Box::new((**y).clone())),
            Exp::Bvmul(x, y) => Exp::Bvmul(Box::new((**x).clone()), Box::new((**y).clone())),
            Exp::Bvneg(x) => Exp::Bvneg(Box::new((**x).clone())),
            Exp::Bvsdiv(x, y) => Exp::Bvsdiv(Box::new((**x).clone()), Box::new((**y).clone())),
            Exp::Bvsmod(x, y) => Exp::Bvsmod(Box::new((**x).clone()), Box::new((**y).clone())),
            Exp::Bvudiv(x, y) => Exp::Bvudiv(Box::new((**x).clone()), Box::new((**y).clone())),
            Exp::Bvshl(x, y) => Exp::Bvshl(Box::new((**x).clone()), Box::new((**y).clone())),
            Exp::Bvlshr(x, y) => Exp::Bvlshr(Box::new((**x).clone()), Box::new((**y).clone())),
            Exp::Bvashr(x, y) => Exp::Bvashr(Box::new((**x).clone()), Box::new((**y).clone())),
            Exp::Bvslt(x, y) => Exp::Bvslt(Box::new((**x).clone()), Box::new((**y).clone())),
            Exp::Bvsgt(x, y) => Exp::Bvsgt(Box::new((**x).clone()), Box::new((**y).clone())),
            Exp::Bvsle(x, y) => Exp::Bvsle(Box::new((**x).clone()), Box::new((**y).clone())),
            Exp::Bvsge(x, y) => Exp::Bvsge(Box::new((**x).clone()), Box::new((**y).clone())),
            Exp::Extract(h, l, x) => Exp::Extract(*h, *l, Box::new((**x).clone())),
            Exp::ZeroExtend(n, x) => Exp::ZeroExtend(*n, Box::new((**x).clone())),
            Exp::SignExtend(n, x) => Exp::SignExtend(*n, Box::new((**x).clone())),
            Exp::Concat(x, y) => Exp::Concat(Box::new((**x).clone()), Box::new((**y).clone())),
            Exp::Ite(c, t, e) => Exp::Ite(
                Box::new((**c).clone()),
                Box::new((**t).clone()),
                Box::new((**e).clone()),
            ),
        }
    }
}

/// A copy of a vector of bits with the same view.
fn clone_bits_vec(b: &Vec<bool>) -> (r: Vec<bool>)
    ensures
        r@ == b@,
{
    let mut out: Vec<bool> = Vec::new();
    let mut k: usize = 0;
    while k < b.len()
        invariant
            k <= b@.len(),
            out@.len() == k as int,
            forall|i: int| 0 <= i < k ==> out@[i] == b@[i],
        decreases b@.len() - k,
    {
        out.push(b[k]);
        k += 1;
    }
    proof {
        assert(out@ =~= b@);
    }
    out
}

/// One element of the linear trace handed to the solver.
#[derive(Clone, Debug)]
pub enum Def {
    /// Declare a fresh symbol of a sort, leaving its value open.
    DeclareConst(Sym, SmtTy),
    /// Define a fresh symbol to equal a term.
    DefineConst(Sym, Exp),
    /// Assert that a boolean term holds.
    Assert(Exp),
}

/// An event published by the evaluator, appended in source order.
#[derive(Clone, Debug)]
pub enum Event {
    /// An instruction was fetched, with its opcode.
    Instr(Val),
    /// A branch to an address was announced.
    Branch { address: Val },
    /// A memory barrier of some kind.
    Barrier { barrier_kind: Val },
    /// A cache maintenance operation on an address.
    CacheOp { cache_op_kind: Val, address: Val },
    /// Mark registers with an annotation for the memory model.
    MarkReg { regs: Vec<u32>, mark: String },
    /// A request to wake sleeping threads.
    WakeupRequest,
    /// A memory read: the value read, the read kind, the address, and the
    /// number of bytes.
    ReadMem { value: Val, read_kind: Val, address: Val, bytes: u32 },
    /// A memory write: the success value, the write kind, the address, the
    /// data written, and the number of bytes.
    WriteMem { value: Sym, write_kind: Val, address: Val, data: Val, bytes: u32 },
}

/// A satisfiability verdict from the external solver.
#[derive(Clone, Copy, Debug, PartialEq, Eq, Structural)]
pub enum SmtResult {
    Sat,
    Unsat,
    Unknown,
}

/// The sort of a term, given the sorts already recorded for symbols.
pub open spec fn spec_sort_of(sorts: Seq<Option<SmtTy>>, e: Exp) -> Option<SmtTy>
    decreases e,
{
    match e {
        Exp::Var(s) => if s < sorts.len() {
            sorts[s as int]
        } else {
            None
        },
        Exp::Bits(bits) => if bits.len() <= u32::MAX {
            Some(SmtTy::BitVec(bits.len() as u32))
        } else {
            None
        },
        Exp::Bits64(_, w) => Some(SmtTy::BitVec(w)),
        Exp::Enum(m) => Some(SmtTy::EnumTy(m.enum_id)),
        Exp::Bool(_) => Some(SmtTy::Bool),
        Exp::Eq(_, _) => Some(SmtTy::Bool),
        Exp::Neq(_, _) => Some(SmtTy::Bool),
        Exp::And(_, _) => Some(SmtTy::Bool),
        Exp::Or(_, _) => Some(SmtTy::Bool),
        Exp::Not(_) => Some(SmtTy::Bool),
        Exp::Bvslt(_, _) => Some(SmtTy::Bool),
        Exp::Bvsgt(_, _) => Some(SmtTy::Bool),
        Exp::Bvsle(_, _) => Some(SmtTy::Bool),
        Exp::Bvsge(_, _) => Some(SmtTy::Bool),
        Exp::Bvnot(x) => spec_sort_of(sorts, *x),
        Exp::Bvneg(x) => spec_sort_of(sorts, *x),
        Exp::Bvand(x, _) => spec_sort_of(sorts, *x),
        Exp::Bvor(x, _) => spec_sort_of(sorts, *x),
        Exp::Bvxor(x, _) => spec_sort_of(sorts, *x),
        Exp::Bvadd(x, _) => spec_sort_of(sorts, *x),
        Exp::Bvsub(x, _) => spec_sort_of(sorts, *x),
        Exp::Bvmul(x, _) => spec_sort_of(sorts, *x),
        Exp::Bvsdiv(x, _) => spec_sort_of(sorts, *x),
        Exp::Bvsmod(x, _) => spec_sort_of(sorts, *x),
        Exp::Bvudiv(x, _) => spec_sort_of(sorts, *x),
        Exp::Bvshl(x, _) => spec_sort_of(sorts, *x),
        Exp::Bvlshr(x, _) => spec_sort_of(sorts, *x),
        Exp::Bvashr(x, _) => spec_sort_of(sorts, *x),
        Exp::Extract(high, low, _) => if low <= high && high - low < u32::MAX {
            Some(SmtTy::BitVec((high - low + 1) as u32))
        } else {
            None
        },
        Exp::ZeroExtend(n, x) => match spec_sort_of(sorts, *x) {
            Some(SmtTy::BitVec(w)) => if w + n <= u32::MAX {
                Some(SmtTy::BitVec((w + n) as u32))
            } else {
                None
            },
            _ => None,
        },
        Exp::SignExtend(n, x) => match spec_sort_of(sorts, *x) {
            Some(SmtTy::BitVec(w)) => if w + n <= u32::MAX {
                Some(SmtTy::BitVec((w + n) as u32))
            } else {
                None
            },
            _ => None,
        },
        Exp::Concat(x, y) => match (spec_sort_of(sorts, *x), spec_sort_of(sorts, *y)) {
            (Some(SmtTy::BitVec(w1)), Some(SmtTy::BitVec(w2))) => if w1 + w2 <= u32::MAX {
                Some(SmtTy::BitVec((w1 + w2) as u32))
            } else {
                None
            },
            _ => None,
        },
        Exp::Ite(_, t, _) => spec_sort_of(sorts, *t),
    }
}

/// The stateful solver facade: a fresh-symbol allocator, the trace of
/// declarations, definitions and assertions, the per-symbol sorts, the
/// event log, a cycle counter, and the queue of satisfiability verdicts
/// supplied by the external solver.
#[derive(Debug)]
pub struct Solver {
    next: u32,
    trace: Vec<Def>,
    sorts: Vec<Option<SmtTy>>,
    events: Vec<Event>,
    cycles: i128,
    sat_answers: Vec<SmtResult>,
}

impl Solver {
    /// The number of symbols allocated so far; also the next fresh symbol.
    pub closed spec fn next_sym(self) -> nat {
        self.next as nat
    }

    /// The trace of definitions handed to the solver.
    pub closed spec fn trace(self) -> Seq<Def> {
        self.trace@
    }

    /// The recorded sorts, indexed by symbol.
    pub closed spec fn sorts(self) -> Seq<Option<SmtTy>> {
        self.sorts@
    }

    /// The events published so far.
    pub closed spec fn events(self) -> Seq<Event> {
        self.events@
    }

    /// The value of the cycle counter.
    pub closed spec fn cycles(self) -> int {
        self.cycles as int
    }

    /// The queued satisfiability verdicts, first to be consumed first.
    pub closed spec fn answers(self) -> Seq<SmtResult> {
        self.sat_answers@
    }

    /// The sort recorded for a symbol.
    pub open spec fn sym_sort(self, s: Sym) -> Option<SmtTy> {
        if s < self.sorts().len() {
            self.sorts()[s as int]
        } else {
            None
        }
    }

    /// The bit width of a symbol, when it has a bit-vector sort.
    pub open spec fn spec_length(self, s: Sym) -> Option<u32> {
        match self.sym_sort(s) {
            Some(SmtTy::BitVec(w)) => Some(w),
            _ => None,
        }
    }

    /// The facade is well formed: a sort slot exists for every allocated
    /// symbol.
    pub closed spec fn wf(self) -> bool {
        self.sorts@.len() == self.next as nat
    }

    /// A fresh, empty solver.
    pub fn new() -> (r: Solver)
        ensures
            r.wf(),
            r.next_sym() == 0,
            r.trace() == Seq::<Def>::empty(),
            r.events() == Seq::<Event>::empty(),
            r.cycles() == 0,
            r.answers() == Seq::<SmtResult>::empty(),
    {
        Solver {
            next: 0,
            trace: Vec::new(),
            sorts: Vec::new(),
            events: Vec::new(),
            cycles: 0,
            sat_answers: Vec::new(),
        }
    }

    /// Queue a satisfiability verdict from the external solver.
    pub fn push_sat_answer(&mut self, answer: SmtResult)
        requires
            old(self).wf(),
        ensures
            final(self).wf(),
            final(self).answers() == old(self).answers().push(answer),
            final(self).next_sym() == old(self).next_sym(),
            final(self).trace() == old(self).trace(),
            final(self).sorts() == old(self).sorts(),
            final(self).events() == old(self).events(),
            final(self).cycles() == old(self).cycles(),
    {
        self.sat_answers.push(answer);
    }



    /// How many definitions the trace holds.
    pub fn trace_len(&self) -> (r: usize)
        ensures
            r == self.trace().len(),
    {
        self.trace.len()
    }

    /// How many events have been published.
    pub fn events_len(&self) -> (r: usize)
        ensures
            r == self.events().len(),
    {
        self.events.len()
    }

    /// How many fresh symbols can still be allocated.
    pub fn remaining_symbols(&self) -> (r: u32)
        ensures
            r == u32::MAX - self.next_sym(),
    {
        u32::MAX - self.next
    }

    /// Allocate a fresh symbol with no sort recorded yet.
    pub fn fresh(&mut self) -> (r: Sym)
        requires
            old(self).wf(),
            old(self).next_sym() < u32::MAX,
        ensures
            final(self).wf(),
            r == old(self).next_sym(),
            final(self).next_sym() == old(self).next_sym() + 1,
            final(self).sorts() == old(self).sorts().push(None),
            final(self).trace() == old(self).trace(),
            final(self).events() == old(self).events(),
            final(self).cycles() == old(self).cycles(),
            final(self).answers() == old(self).answers(),
    {
        let s = self.next;
        self.next = self.next + 1;
        self.sorts.push(None);
        s
    }

    /// The sort of a term under the recorded symbol sorts.
    pub fn sort_of_exp(&self, e: &Exp) -> (r: Option<SmtTy>)
        ensures
            r == spec_sort_of(self.sorts(), *e),
        decreases *e,
    {
        match e {
            Exp::Var(s) => if (*s as usize) < self.sorts.len() {
                self.sorts[*s as usize]
            } else {
                None
            },
            Exp::Bits(bits) => if bits.len() <= u32::MAX as usize {
                Some(SmtTy::BitVec(bits.len() as u32))
            } else {
                None
            },
            Exp::Bits64(_, w) => Some(SmtTy::BitVec(*w)),
            Exp::Enum(m) => Some(SmtTy::EnumTy(m.enum_id)),
            Exp::Bool(_) => Some(SmtTy::Bool),
            Exp::Eq(_, _) => Some(SmtTy::Bool),
            Exp::Neq(_, _) => Some(SmtTy::Bool),
            Exp::And(_, _) => Some(SmtTy::Bool),
            Exp::Or(_, _) => Some(SmtTy::Bool),
            Exp::Not(_) => Some(SmtTy::Bool),
            Exp::Bvslt(_, _) => Some(SmtTy::Bool),
            Exp::Bvsgt(_, _) => Some(SmtTy::Bool),
            Exp::Bvsle(_, _) => Some(SmtTy::Bool),
            Exp::Bvsge(_, _) => Some(SmtTy::Bool),
            Exp::Bvnot(x) => self.sort_of_exp(x),
            Exp::Bvneg(x) => self.sort_of_exp(x),
            Exp::Bvand(x, _) => self.sort_of_exp(x),
            Exp::Bvor(x, _) => self.sort_of_exp(x),
            Exp::Bvxor(x, _) => self.sort_of_exp(x),
            Exp::Bvadd(x, _) => self.sort_of_exp(x),
            Exp::Bvsub(x, _) => self.sort_of_exp(x),
            Exp::Bvmul(x, _) => self.sort_of_exp(x),
            Exp::Bvsdiv(x, _) => self.sort_of_exp(x),
            Exp::Bvsmod(x, _) => self.sort_of_exp(x),
            Exp::Bvudiv(x, _) => self.sort_of_exp(x),
            Exp::Bvshl(x, _) => self.sort_of_exp(x),
            Exp::Bvlshr(x, _) => self.sort_of_exp(x),
            Exp::Bvashr(x, _) => self.sort_of_exp(x),
            Exp::Extract(high, low, _) => if *low <= *high && *high - *low < u32::MAX {
                Some(SmtTy::BitVec(high - low + 1))
            } else {
                None
            },
            Exp::ZeroExtend(n, x) => match self.sort_of_exp(x) {
                Some(SmtTy::BitVec(w)) => if *n <= u32::MAX - w {
                    Some(SmtTy::BitVec(w + n))
                } else {
                    None
                },
                _ => None,
            },
            Exp::SignExtend(n, x) => match self.sort_of_exp(x) {
                Some(SmtTy::BitVec(w)) => if *n <= u32::MAX - w {
                    Some(SmtTy::BitVec(w + n))
                } else {
                    None
                },
                _ => None,
            },
            Exp::Concat(x, y) => match (self.sort_of_exp(x), self.sort_of_exp(y)) {
                (Some(SmtTy::BitVec(w1)), Some(SmtTy::BitVec(w2))) => if w2 <= u32::MAX - w1 {
                    Some(SmtTy::BitVec(w1 + w2))
                } else {
                    None
                },
                _ => None,
            },
            Exp::Ite(_, t, _) => self.sort_of_exp(t),
        }
    }

    /// Append a definition to the trace, recording the sort of the symbol
    /// it declares or defines.
    pub fn add(&mut self, d: Def)
        requires
            old(self).wf(),
        ensures
            final(self).wf(),
            final(self).trace() == old(self).trace().push(d),
            final(self).next_sym() == old(self).next_sym(),
            final(self).events() == old(self).events(),
            final(self).cycles() == old(self).cycles(),
            final(self).answers() == old(self).answers(),
            match d {
                Def::DeclareConst(s, ty) => if s < old(self).next_sym() {
                    final(self).sorts() == old(self).sorts().update(s as int, Some(ty))
                } else {
                    final(self).sorts() == old(self).sorts()
                },
                Def::DefineConst(s, e) => if s < old(self).next_sym() {
                    final(self).sorts() == old(self).sorts().update(
                        s as int,
                        spec_sort_of(old(self).sorts(), e),
                    )
                } else {
                    final(self).sorts() == old(self).sorts()
                },
                Def::Assert(_) => final(self).sorts() == old(self).sorts(),
            },
    {
        match &d {
            Def::DeclareConst(s, ty) => {
                if (*s as usize) < self.sorts.len() {
                    let sort = Some(*ty);
                    self.sorts.set(*s as usize, sort);
                }
            },
            Def::DefineConst(s, e) => {
                if (*s as usize) < self.sorts.len() {
                    let sort = self.sort_of_exp(e);
                    self.sorts.set(*s as usize, sort);
                }
            },
            Def::Assert(_) => {},
        }
        self.trace.push(d);
    }

    /// Allocate a fresh symbol and declare it with the given sort.
    pub fn declare_const(&mut self, ty: SmtTy) -> (r: Sym)
        requires
            old(self).wf(),
            old(self).next_sym() < u32::MAX,
        ensures
            final(self).wf(),
            r == old(self).next_sym(),
            final(self).next_sym() == old(self).next_sym() + 1,
            final(self).trace() == old(self).trace().push(Def::DeclareConst(r, ty)),
            final(self).sorts() == old(self).sorts().push(Some(ty)),
            final(self).sym_sort(r) == Some(ty),
            final(self).events() == old(self).events(),
            final(self).cycles() == old(self).cycles(),
            final(self).answers() == old(self).answers(),
    {
        let s = self.fresh();
        let ghost mid = self.sorts();
        self.add(Def::DeclareConst(s, ty));
        proof {
            assert(final(self).sorts() =~= old(self).sorts().push(Some(ty)));
        }
        s
    }

    /// Allocate a fresh symbol and define it to equal the given term.
    pub fn define_const(&mut self, e: Exp) -> (r: Sym)
        requires
            old(self).wf(),
            old(self).next_sym() < u32::MAX,
        ensures
            final(self).wf(),
            r == old(self).next_sym(),
            final(self).next_sym() == old(self).next_sym() + 1,
            final(self).trace() == old(self).trace().push(Def::DefineConst(r, e)),
            final(self).sorts() == old(self).sorts().push(
                spec_sort_of(old(self).sorts(), e),
            ),
            final(self).sym_sort(r) == spec_sort_of(old(self).sorts(), e),
            final(self).events() == old(self).events(),
            final(self).cycles() == old(self).cycles(),
            final(self).answers() == old(self).answers(),
    {
        let s = self.fresh();
        let ghost mid_sorts = self.sorts();
        proof {
            assert(spec_sort_of(mid_sorts, e) == spec_sort_of(old(self).sorts(), e)) by {
                lemma_sort_of_push_none(old(self).sorts(), e);
            }
        }
        self.add(Def::DefineConst(s, e));
        proof {
            assert(final(self).sorts() =~= old(self).sorts().push(
                spec_sort_of(old(self).sorts(), e),
            ));
        }
        s
    }

    /// The recorded bit width of a symbol.
    pub fn length(&self, s: Sym) -> (r: Option<u32>)
        ensures
            r == self.spec_length(s),
    {
        if (s as usize) < self.sorts.len() {
            match self.sorts[s as usize] {
                Some(SmtTy::BitVec(w)) => Some(w),
                _ => None,
            }
        } else {
            None
        }
    }

    /// Whether a symbol has a bit-vector sort.
    pub fn is_bitvector(&self, s: Sym) -> (r: bool)
        ensures
            r == (self.spec_length(s) is Some),
    {
        self.length(s).is_some()
    }

    /// Publish an event.
    pub fn add_event(&mut self, e: Event)
        requires
            old(self).wf(),
        ensures
            final(self).wf(),
            final(self).events() == old(self).events().push(e),
            final(self).next_sym() == old(self).next_sym(),
            final(self).trace() == old(self).trace(),
            final(self).sorts() == old(self).sorts(),
            final(self).cycles() == old(self).cycles(),
            final(self).answers() == old(self).answers(),
    {
        self.events.push(e);
    }

    /// Advance the cycle counter.
    pub fn cycle_count(&mut self)
        requires
            old(self).wf(),
            old(self).cycles() < i128::MAX,
        ensures
            final(self).wf(),
            final(self).cycles() == old(self).cycles() + 1,
            final(self).next_sym() == old(self).next_sym(),
            final(self).trace() == old(self).trace(),
            final(self).sorts() == old(self).sorts(),
            final(self).events() == old(self).events(),
            final(self).answers() == old(self).answers(),
    {
        self.cycles = self.cycles + 1;
    }

    /// Read the cycle counter.
    pub fn get_cycle_count(&self) -> (r: i128)
        ensures
            r == self.cycles(),
    {
        self.cycles
    }

    /// Ask the external solver whether the trace together with the given
    /// term is satisfiable. The verdict is the next queued answer; when the
    /// queue is empty the verdict is unknown.
    pub fn check_sat_with(&mut self, e: &Exp) -> (r: SmtResult)
        requires
            old(self).wf(),
        ensures
            final(self).wf(),
            old(self).answers().len() > 0 ==> {
                &&& r == old(self).answers()[0]
                &&& final(self).answers() == old(self).answers().drop_first()
            },
            old(self).answers().len() == 0 ==> {
                &&& r == SmtResult::Unknown
                &&& final(self).answers() == old(self).answers()
            },
            final(self).next_sym() == old(self).next_sym(),
            final(self).trace() == old(self).trace(),
            final(self).sorts() == old(self).sorts(),
            final(self).events() == old(self).events(),
            final(self).cycles() == old(self).cycles(),
    {
        if self.sat_answers.len() > 0 {
            let r = self.sat_answers.remove(0);
            proof {
                assert(final(self).answers() =~= old(self).answers().drop_first());
            }
            r
        } else {
            SmtResult::Unknown
        }
    }
}

/// Pushing a sort slot for a fresh symbol does not change the sort of any
/// term built before it.
proof fn lemma_sort_of_push_none(sorts: Seq<Option<SmtTy>>, e: Exp)
    requires
        sorts.len() < u32::MAX,
    ensures
        spec_sort_of(sorts.push(None), e) == spec_sort_of(sorts, e),
    decreases e,
{
    match e {
        Exp::Var(s) => {
            if s < sorts.len() {
                assert(sorts.push(None)[s as int] == sorts[s as int]);
            } else if s == sorts.len() {
                assert(sorts.push(None)[s as int] is None);
            }
        },
        Exp::Bvnot(x) => lemma_sort_of_push_none(sorts, *x),
        Exp::Bvneg(x) => lemma_sort_of_push_none(sorts, *x),
        Exp::Bvand(x, _) => lemma_sort_of_push_none(sorts, *x),
        Exp::Bvor(x, _) => lemma_sort_of_push_none(sorts, *x),
        Exp::Bvxor(x, _) => lemma_sort_of_push_none(sorts, *x),
        Exp::Bvadd(x, _) => lemma_sort_of_push_none(sorts, *x),
        Exp::Bvsub(x, _) => lemma_sort_of_push_none(sorts, *x),
        Exp::Bvmul(x, _) => lemma_sort_of_push_none(sorts, *x),
        Exp::Bvsdiv(x, _) => lemma_sort_of_push_none(sorts, *x),
        Exp::Bvsmod(x, _) => lemma_sort_of_push_none(sorts, *x),
        Exp::Bvudiv(x, _) => lemma_sort_of_push_none(sorts, *x),
        Exp::Bvshl(x, _) => lemma_sort_of_push_none(sorts, *x),
        Exp::Bvlshr(x, _) => lemma_sort_of_push_none(sorts, *x),
        Exp::Bvashr(x, _) => lemma_sort_of_push_none(sorts, *x),
        Exp::ZeroExtend(_, x) => lemma_sort_of_push_none(sorts, *x),
        Exp::SignExtend(_, x) => lemma_sort_of_push_none(sorts, *x),
        Exp::Concat(x, y) => {
            lemma_sort_of_push_none(sorts, *x);
            lemma_sort_of_push_none(sorts, *y);
        },
        Exp::Ite(_, t, _) => lemma_sort_of_push_none(sorts, *t),
        _ => {},
    }
}

} // verus!
