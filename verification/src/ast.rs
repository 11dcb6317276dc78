//! The typed intermediate representation and the symbol table.
//!
//! Source identifiers are interned to dense 32-bit names; the IR is a
//! clone-cheap tree over those names. The primop-insertion pass rewrites
//! calls to signature-only functions into primop instructions.

use vstd::prelude::*;

verus! {

/// An IR type.
#[derive(Debug)]
pub enum Ty<A> {
    /// An integer of no fixed width.
    Lint,
    /// An integer of a fixed width.
    Fint(u32),
    /// An integer refinement: exactly this constant.
    Constant(i128),
    /// A bit vector of no fixed width.
    Lbits,
    /// A bit vector of a bounded width.
    Sbits(u32),
    /// A bit vector of a fixed width.
    Fbits(u32),
    Unit,
    Bool,
    Bit,
    String,
    Real,
    /// A named enumeration.
    Enum(A),
    /// A named struct.
    Struct(A),
    /// A named union.
    Union(A),
    /// A vector of elements of one type.
    Vector(Box<Ty<A>>),
    /// A list of elements of one type.
    List(Box<Ty<A>>),
    /// A reference to a location of one type.
    Ref(Box<Ty<A>>),
}

/// A location an instruction can write.
#[derive(Debug)]
pub enum Loc<A> {
    Id(A),
    Field(Box<Loc<A>>, A),
    Addr(Box<Loc<A>>),
}

/// An IR operator.
#[derive(Clone, Copy, Debug)]
pub enum Op {
    Not,
    Or,
    And,
    Eq,
    Neq,
    Lteq,
    Lt,
    Slice(u32),
    Signed(u32),
    Unsigned(u32),
    Bvnot,
    Bvor,
    Bvxor,
    Bvand,
    Bvadd,
    Bvsub,
    Bvaccess,
    Concat,
    BitToBool,
}

/// A literal bit.
#[derive(Clone, Copy, Debug)]
pub enum Bit {
    B0,
    B1,
}

/// An IR expression.
#[derive(Debug)]
pub enum Exp<A> {
    Id(A),
    /// A reference to a register.
    Ref(A),
    Bool(bool),
    Bit(Bit),
    Bits(crate::bitvector::Sbits),
    String(String),
    Unit,
    Int(i128),
    /// A struct literal: the struct name and its fields.
    Struct(A, Vec<(A, Exp<A>)>),
    /// A tagged-union constructor test or construction.
    Kind(A, Box<Exp<A>>),
    /// A tagged-union destructor.
    Unwrap(A, Box<Exp<A>>),
    /// A field projection.
    Field(Box<Exp<A>>, A),
    /// An operator applied to arguments.
    Call(Op, Vec<Exp<A>>),
}

/// An IR instruction.
#[derive(Debug)]
pub enum Instr<A> {
    /// Declare a variable of a type.
    Decl(A, Ty<A>),
    /// Declare and initialize a variable.
    Init(A, Ty<A>, Exp<A>),
    /// Jump to a label when the condition holds.
    Jump(Exp<A>, usize),
    /// Jump to a label unconditionally.
    Goto(usize),
    /// Copy an expression into a location.
    Copy(Loc<A>, Exp<A>),
    /// Call a function; the flag marks an external call.
    Call(Loc<A>, bool, A, Vec<Exp<A>>),
    /// A call resolved to a primitive operation by the insertion pass.
    Primop(Loc<A>, A, Vec<Exp<A>>),
    /// Failure of the program.
    Failure,
    /// An arbitrary value: havoc.
    Arbitrary,
    /// The end of the program.
    End,
}

/// A top-level IR definition.
#[derive(Debug)]
pub enum Def<A> {
    /// A register with its type.
    Register(A, Ty<A>),
    /// Let-bindings with their setup block.
    Let(Vec<(A, Ty<A>)>, Vec<Instr<A>>),
    /// An enumeration and its members.
    Enum(A, Vec<A>),
    /// A struct and its fields.
    Struct(A, Vec<(A, Ty<A>)>),
    /// A union and its constructors.
    Union(A, Vec<(A, Ty<A>)>),
    /// A value declaration: a function signature.
    Val(A, Vec<Ty<A>>, Ty<A>),
    /// A function definition: arguments and body.
    Fn(A, Vec<A>, Vec<Instr<A>>),
}

/// The interned name of the return identifier, the first preseeded symbol.
pub const RETURN: u32 = 0;

/// The symbol table: an interner from source identifiers to dense 32-bit
/// names.
pub struct Symtab {
    symbols: Vec<String>,
}

impl Symtab {
    /// The interned identifiers, in interning order.
    pub closed spec fn view(&self) -> Seq<Seq<char>> {
        Seq::new(self.symbols@.len(), |i: int| self.symbols@[i]@)
    }

    /// Whether a name is already interned.
    pub open spec fn contains(&self, name: Seq<char>) -> bool {
        exists|i: int| 0 <= i < self.view().len() && self.view()[i] == name
    }

    /// The table never interns one identifier twice, and its size leaves
    /// room for dense 32-bit names.
    pub open spec fn wf(&self) -> bool {
        &&& forall|i: int, j: int|
            0 <= i < j < self.view().len() ==> self.view()[i] != self.view()[j]
        &&& self.view().len() < u32::MAX
    }

    /// A symbol table preseeded with the well-known names.
    pub fn new() -> (r: Symtab)
        ensures
            r.wf(),
            r.view().len() == 6,
            r.view()[RETURN as int] == "return"@,
            r.view()[1] == "current_exception"@,
            r.view()[2] == "have_exception"@,
            r.view()[3] == "zsail_assert"@,
            r.view()[4] == "zinternal_vector_init"@,
            r.view()[5] == "zinternal_vector_update"@,
    {
        proof {
            reveal_strlit("return");
            reveal_strlit("current_exception");
            reveal_strlit("have_exception");
            reveal_strlit("zsail_assert");
            reveal_strlit("zinternal_vector_init");
            reveal_strlit("zinternal_vector_update");
            assert("return"@.len() == 6 && "current_exception"@.len() == 17
                && "have_exception"@.len() == 14 && "zsail_assert"@.len() == 12
                && "zinternal_vector_init"@.len() == 21 && "zinternal_vector_update"@.len()
                == 23);
        }
        let mut symtab = Symtab { symbols: Vec::new() };
        proof {
            assert(symtab.view() =~= Seq::<Seq<char>>::empty());
        }
        symtab.intern_str("return");
        proof {
            assert(!symtab.contains("current_exception"@));
        }
        symtab.intern_str("current_exception");
        proof {
            assert(!symtab.contains("have_exception"@));
        }
        symtab.intern_str("have_exception");
        proof {
            assert(!symtab.contains("zsail_assert"@));
        }
        symtab.intern_str("zsail_assert");
        proof {
            assert(!symtab.contains("zinternal_vector_init"@));
        }
        symtab.intern_str("zinternal_vector_init");
        proof {
            assert(!symtab.contains("zinternal_vector_update"@));
        }
        symtab.intern_str("zinternal_vector_update");
        symtab
    }

    /// Intern an identifier given as a string slice.
    pub fn intern_str(&mut self, sym: &str) -> (r: u32)
        requires
            old(self).wf(),
            old(self).view().len() + 1 < u32::MAX,
        ensures
            final(self).wf(),
            old(self).contains(sym@) ==> final(self).view() == old(self).view() && final(self).view()[r as int] == sym@,
            !old(self).contains(sym@) ==> final(self).view() == old(self).view().push(sym@) && r
                == old(self).view().len(),
            r < final(self).view().len(),
            final(self).view()[r as int] == sym@,
            old(self).view().is_prefix_of(final(self).view()),
    {
        let owned = sym.to_owned();
        self.intern(owned)
    }

    /// Intern an identifier: the name it already has, or the next free
    /// name.
    #[verifier::loop_isolation(false)]
    pub fn intern(&mut self, sym: String) -> (r: u32)
        requires
            old(self).wf(),
            old(self).view().len() + 1 < u32::MAX,
        ensures
            final(self).wf(),
            old(self).contains(sym@) ==> final(self).view() == old(self).view() && final(self).view()[r as int] == sym@,
            !old(self).contains(sym@) ==> final(self).view() == old(self).view().push(sym@) && r
                == old(self).view().len(),
            r < final(self).view().len(),
            final(self).view()[r as int] == sym@,
            old(self).view().is_prefix_of(final(self).view()),
    {
        let ghost pre = self.view();
        let mut k: usize = 0;
        while k < self.symbols.len()
            invariant
                self.wf(),
                pre == self.view(),
                k <= self.symbols@.len(),
                self.symbols@.len() == self.view().len(),
                forall|i: int| 0 <= i < k ==> self.view()[i] != sym@,
            decreases self.symbols@.len() - k,
        {
            if self.symbols[k] == sym {
                proof {
                    assert(self.view()[k as int] == sym@);
                }
                return k as u32;
            }
            k += 1;
        }
        let n = self.symbols.len() as u32;
        self.symbols.push(sym);
        proof {
            assert(self.view() =~= pre.push(sym@));
            assert(self.view()[n as int] == sym@);
            assert forall|i: int, j: int|
                0 <= i < j < self.view().len() implies self.view()[i] != self.view()[j] by {
                if j < pre.len() {
                } else {
                    assert(self.view()[j] == sym@);
                    assert(!(exists|m: int| 0 <= m < pre.len() && pre[m] == sym@));
                }
            }
        }
        n
    }


    /// How many identifiers the table holds.
    pub fn symbols_len(&self) -> (r: usize)
        ensures
            r == self.view().len(),
    {
        self.symbols.len()
    }

    /// The identifier behind a name.
    pub fn to_str(&self, n: u32) -> (r: &str)
        requires
            n < self.view().len(),
        ensures
            r@ == self.view()[n as int],
    {
        self.symbols[n as usize].as_str()
    }

    /// Find the name of an identifier that is known to be interned.
    pub fn lookup(&self, sym: &str) -> (r: u32)
        requires
            self.wf(),
            self.contains(sym@),
        ensures
            r < self.view().len(),
            self.view()[r as int] == sym@,
    {
        match self.get(sym) {
            Some(n) => n,
            None => {
                proof {
                    assert(false);
                }
                0
            },
        }
    }

    /// Find the name of an identifier, when it is interned.
    #[verifier::loop_isolation(false)]
    pub fn get(&self, sym: &str) -> (r: Option<u32>)
        requires
            self.wf(),
        ensures
            r is Some <==> self.contains(sym@),
            r matches Some(n) ==> n < self.view().len() && self.view()[n as int] == sym@,
    {
        let target = sym.to_owned();
        let mut k: usize = 0;
        while k < self.symbols.len()
            invariant
                target@ == sym@,
                k <= self.symbols@.len(),
                self.symbols@.len() == self.view().len(),
                forall|i: int| 0 <= i < k ==> self.view()[i] != sym@,
            decreases self.symbols@.len() - k,
        {
            if self.symbols[k] == target {
                proof {
                    assert(self.view()[k as int] == sym@);
                }
                return Some(k as u32);
            }
            k += 1;
        }
        None
    }
}

/// Whether a definition is a value declaration for a name.
pub open spec fn declares_val(d: Def<u32>, f: u32) -> bool {
    d matches Def::Val(g, _, _) && g == f
}

/// Whether a definition is a function definition for a name.
pub open spec fn defines_fn(d: Def<u32>, f: u32) -> bool {
    d matches Def::Fn(g, _, _) && g == f
}

/// The primop set of a definitions array: the names declared by a value
/// declaration and defined by no function.
pub open spec fn is_primop_name(defs: Seq<Def<u32>>, f: u32) -> bool {
    (exists|i: int| 0 <= i < defs.len() && declares_val(#[trigger] defs[i], f)) && !(exists|i: int|
        0 <= i < defs.len() && defines_fn(#[trigger] defs[i], f))
}

/// Whether an instruction is a call whose target is in the given set.
pub open spec fn is_call_to(instr: Instr<u32>, prims: Seq<u32>) -> bool {
    instr matches Instr::Call(_, _, f, _) && prims.contains(f)
}

/// Whether no instruction of a body is an unresolved call into the set.
pub open spec fn body_resolved(body: Seq<Instr<u32>>, prims: Seq<u32>) -> bool {
    forall|i: int| 0 <= i < body.len() ==> !is_call_to(#[trigger] body[i], prims)
}

/// Whether every function body of a definitions array is free of calls
/// into the set.
pub open spec fn defs_resolved(defs: Seq<Def<u32>>, prims: Seq<u32>) -> bool {
    forall|i: int|
        0 <= i < defs.len() ==> match #[trigger] defs[i] {
            Def::Fn(_, _, body) => body_resolved(body@, prims),
            _ => true,
        }
}

/// Pushing an element extends sequence membership by exactly that
/// element.
proof fn lemma_contains_push<T>(s: Seq<T>, x: T, y: T)
    ensures
        s.push(x).contains(y) <==> (s.contains(y) || x == y),
{
    if s.contains(y) {
        let m = choose|m: int| 0 <= m < s.len() && s[m] == y;
        assert(s.push(x)[m] == y);
    }
    if x == y {
        assert(s.push(x)[s.len() as int] == y);
    }
    if s.push(x).contains(y) {
        let m = choose|m: int| 0 <= m < s.push(x).len() && s.push(x)[m] == y;
        if m < s.len() {
            assert(s[m] == y);
        }
    }
}

/// Collect the primop names of a definitions array: every name with a
/// value declaration and no function definition.
#[verifier::loop_isolation(false)]
fn collect_primops(defs: &Vec<Def<u32>>) -> (r: Vec<u32>)
    ensures
        forall|f: u32| r@.contains(f) <==> is_primop_name(defs@, f),
{
    let mut prims: Vec<u32> = Vec::new();
    let mut k: usize = 0;
    while k < defs.len()
        invariant
            k <= defs@.len(),
            forall|f: u32|
                prims@.contains(f) <==> ((exists|i: int|
                    0 <= i < k && declares_val(#[trigger] defs@[i], f)) && !has_fn(defs@, f)),
        decreases defs@.len() - k,
    {
        let is_new_val = match &defs[k] {
            Def::Val(f, _, _) => !contains_name(&prims, *f) && !defs_define_fn(defs, *f),
            _ => false,
        };
        if is_new_val {
            let f = match &defs[k] {
                Def::Val(f, _, _) => *f,
                _ => {
                    proof {
                        assert(false);
                    }
                    return prims;
                },
            };
            let ghost pre = prims@;
            prims.push(f);
            proof {
                assert(declares_val(defs@[k as int], f));
                assert forall|g: u32| #[trigger]
                    prims@.contains(g) == (pre.contains(g) || g == f) by {
                    lemma_contains_push(pre, f, g);
                }
            }
        }
        proof {
            assert forall|g: u32|
                prims@.contains(g) <==> ((exists|i: int|
                    0 <= i < k + 1 && declares_val(#[trigger] defs@[i], g)) && !has_fn(
                    defs@,
                    g,
                )) by {
                if prims@.contains(g) {
                    if is_primop_decl_before(defs@, g, k as int) {
                    } else {
                        assert(declares_val(defs@[k as int], g));
                    }
                } else {
                    if (exists|i: int| 0 <= i < k + 1 && declares_val(#[trigger] defs@[i], g))
                        && !has_fn(defs@, g) {
                        let i = choose|i: int|
                            0 <= i < k + 1 && declares_val(#[trigger] defs@[i], g);
                        if i < k {
                        } else {
                            assert(declares_val(defs@[k as int], g));
                        }
                    }
                }
            }
        }
        k += 1;
    }
    proof {
        assert forall|f: u32| prims@.contains(f) <==> is_primop_name(defs@, f) by {}
    }
    prims
}


/// How the insertion pass rewrites one instruction: a call into the set
/// becomes the primop form with the same location, name and arguments;
/// anything else is kept.
pub open spec fn instr_rewritten(a: Instr<u32>, b: Instr<u32>, prims: Seq<u32>) -> bool {
    if is_call_to(a, prims) {
        match a {
            Instr::Call(loc, _, f, args) => b == Instr::Primop(loc, f, args),
            _ => false,
        }
    } else {
        b == a
    }
}

/// How the insertion pass rewrites one definition: a function keeps its
/// name and arguments and has each instruction rewritten; anything else
/// is kept.
pub open spec fn def_rewritten(a: Def<u32>, b: Def<u32>, prims: Seq<u32>) -> bool {
    match (a, b) {
        (Def::Fn(f, args, body), Def::Fn(g, brgs, nbody)) => {
            &&& f == g
            &&& args == brgs
            &&& body@.len() == nbody@.len()
            &&& forall|i: int|
                0 <= i < body@.len() ==> instr_rewritten(#[trigger] body@[i], nbody@[i], prims)
        },
        _ => b == a,
    }
}

/// The rewrite keeps every declaration and every function name, so the
/// primop set of the rewritten array is the primop set of the original.
pub proof fn lemma_rewritten_primop_names(a: Seq<Def<u32>>, b: Seq<Def<u32>>, prims: Seq<u32>)
    requires
        a.len() == b.len(),
        forall|i: int| 0 <= i < a.len() ==> def_rewritten(#[trigger] a[i], b[i], prims),
    ensures
        forall|f: u32| #[trigger] is_primop_name(b, f) == is_primop_name(a, f),
{
    assert forall|f: u32| #[trigger] is_primop_name(b, f) == is_primop_name(a, f) by {
        assert forall|i: int| 0 <= i < a.len() implies (declares_val(#[trigger] a[i], f)
            == declares_val(b[i], f)) && (defines_fn(a[i], f) == defines_fn(b[i], f)) by {
            assert(def_rewritten(a[i], b[i], prims));
        }
        if exists|i: int| 0 <= i < a.len() && declares_val(#[trigger] a[i], f) {
            let i = choose|i: int| 0 <= i < a.len() && declares_val(#[trigger] a[i], f);
            assert(declares_val(b[i], f));
        }
        if exists|i: int| 0 <= i < b.len() && declares_val(#[trigger] b[i], f) {
            let i = choose|i: int| 0 <= i < b.len() && declares_val(#[trigger] b[i], f);
            assert(declares_val(a[i], f));
        }
        if exists|i: int| 0 <= i < a.len() && defines_fn(#[trigger] a[i], f) {
            let i = choose|i: int| 0 <= i < a.len() && defines_fn(#[trigger] a[i], f);
            assert(defines_fn(b[i], f));
        }
        if exists|i: int| 0 <= i < b.len() && defines_fn(#[trigger] b[i], f) {
            let i = choose|i: int| 0 <= i < b.len() && defines_fn(#[trigger] b[i], f);
            assert(defines_fn(a[i], f));
        }
    }
}

/// Whether a name is declared by some value declaration before an index.
pub open spec fn is_primop_decl_before(defs: Seq<Def<u32>>, f: u32, k: int) -> bool {
    exists|i: int| 0 <= i < k && declares_val(#[trigger] defs[i], f)
}

/// Whether a name has a value declaration.
pub open spec fn is_val_name(defs: Seq<Def<u32>>, f: u32) -> bool {
    exists|i: int| 0 <= i < defs.len() && declares_val(#[trigger] defs[i], f)
}

/// Whether a name has a function definition.
pub open spec fn has_fn(defs: Seq<Def<u32>>, f: u32) -> bool {
    exists|i: int| 0 <= i < defs.len() && defines_fn(#[trigger] defs[i], f)
}

/// Whether some definition defines a function with the given name.
fn defs_define_fn(defs: &Vec<Def<u32>>, f: u32) -> (r: bool)
    ensures
        r == has_fn(defs@, f),
{
    let mut k: usize = 0;
    while k < defs.len()
        invariant
            k <= defs@.len(),
            forall|i: int| 0 <= i < k ==> !defines_fn(#[trigger] defs@[i], f),
        decreases defs@.len() - k,
    {
        match &defs[k] {
            Def::Fn(g, _, _) => {
                if *g == f {
                    proof {
                        assert(defines_fn(defs@[k as int], f));
                    }
                    return true;
                }
            },
            _ => {},
        }
        k += 1;
    }
    false
}

/// Rewrite every call to a signature-only function into a primop
/// instruction, and return the set of primop names. Running the pass on an
/// array it already rewrote changes nothing.
#[verifier::loop_isolation(false)]
pub fn insert_primops(defs: &mut Vec<Def<u32>>) -> (r: Vec<u32>)
    ensures
        forall|f: u32| r@.contains(f) <==> is_primop_name(old(defs)@, f),
        defs_resolved(final(defs)@, r@),
        final(defs)@.len() == old(defs)@.len(),
        defs_resolved(old(defs)@, r@) ==> final(defs)@ == old(defs)@,
        forall|i: int|
            0 <= i < old(defs)@.len() ==> def_rewritten(
                old(defs)@[i],
                #[trigger] final(defs)@[i],
                r@,
            ),
        forall|f: u32| #[trigger] is_primop_name(final(defs)@, f) == is_primop_name(old(defs)@, f),
{
    let prims = collect_primops(defs);
    let mut k: usize = 0;
    while k < defs.len()
        invariant
            defs@.len() == old(defs)@.len(),
            k <= defs@.len(),
            forall|i: int| k <= i < defs@.len() ==> defs@[i] == old(defs)@[i],
            forall|i: int|
                0 <= i < k ==> match #[trigger] defs@[i] {
                    Def::Fn(_, _, body) => body_resolved(body@, prims@),
                    _ => true,
                },
            forall|i: int|
                0 <= i < k ==> (match old(defs)@[i] {
                    Def::Fn(_, _, body) => body_resolved(body@, prims@),
                    _ => true,
                }) ==> #[trigger] defs@[i] == old(defs)@[i],
            forall|i: int| 0 <= i < k ==> (#[trigger] defs@[i] is Fn) == (old(defs)@[i] is Fn),
            forall|i: int|
                0 <= i < k ==> def_rewritten(old(defs)@[i], #[trigger] defs@[i], prims@),
        decreases defs@.len() - k,
    {
        let is_fn = match &defs[k] {
            Def::Fn(_, _, _) => true,
            _ => false,
        };
        if is_fn {
            rewrite_fn_def(defs, k, &prims);
        } else {
            proof {
                assert(def_rewritten(old(defs)@[k as int], defs@[k as int], prims@));
            }
        }
        k += 1;
    }
    proof {
        lemma_rewritten_primop_names(old(defs)@, defs@, prims@);
    }
    prims
}

/// Rewrite the calls of one function definition in place.
#[verifier::loop_isolation(false)]
fn rewrite_fn_def(defs: &mut Vec<Def<u32>>, k: usize, prims: &Vec<u32>)
    requires
        k < old(defs)@.len(),
        old(defs)@[k as int] is Fn,
    ensures
        final(defs)@.len() == old(defs)@.len(),
        forall|i: int| 0 <= i < final(defs)@.len() && i != k ==> final(defs)@[i] == old(defs)@[i],
        match final(defs)@[k as int] {
            Def::Fn(_, _, body) => body_resolved(body@, prims@),
            _ => false,
        },
        (match old(defs)@[k as int] {
            Def::Fn(_, _, body) => body_resolved(body@, prims@),
            _ => true,
        }) ==> final(defs)@ == old(defs)@,
        final(defs)@[k as int] is Fn,
        def_rewritten(old(defs)@[k as int], final(defs)@[k as int], prims@),
{
    let ghost pre = defs@;
    // find which instructions need rewriting before touching anything, so
    // that an already resolved body is left exactly as it is
    let needs_rewrite = {
        let body = match &defs[k] {
            Def::Fn(_, _, body) => body,
            _ => {
                proof {
                    assert(false);
                }
                return ;
            },
        };
        let mut found = false;
        let mut i: usize = 0;
        while i < body.len()
            invariant
                i <= body@.len(),
                found <==> exists|m: int| 0 <= m < i && is_call_to(#[trigger] body@[m], prims@),
            decreases body@.len() - i,
        {
            let hit = match &body[i] {
                Instr::Call(_, _, f, _) => contains_name(prims, *f),
                _ => false,
            };
            proof {
                assert(hit == is_call_to(body@[i as int], prims@));
            }
            if hit {
                found = true;
            }
            i += 1;
        }
        found
    };
    if !needs_rewrite {
        proof {
            let body = pre[k as int]->Fn_2;
            assert(body_resolved(body@, prims@));
            assert(defs@ =~= pre);
            assert forall|i: int| 0 <= i < body@.len() implies instr_rewritten(
                #[trigger] body@[i],
                body@[i],
                prims@,
            ) by {
                assert(!is_call_to(body@[i], prims@));
            }
        }
        return ;
    }
    // take the definition out, rewrite its body, and put it back
    let def = defs.remove(k);
    let (f, args, mut body) = match def {
        Def::Fn(f, args, body) => (f, args, body),
        _ => {
            proof {
                assert(false);
            }
            return ;
        },
    };
    let ghost body0 = body@;
    let mut i: usize = 0;
    while i < body.len()
        invariant
            i <= body@.len(),
            body@.len() == body0.len(),
            forall|m: int| 0 <= m < i ==> !is_call_to(#[trigger] body@[m], prims@),
            forall|m: int| 0 <= m < i ==> instr_rewritten(body0[m], #[trigger] body@[m], prims@),
            forall|m: int| i <= m < body@.len() ==> #[trigger] body@[m] == body0[m],
        decreases body@.len() - i,
    {
        let hit = match &body[i] {
            Instr::Call(_, _, f2, _) => contains_name(prims, *f2),
            _ => false,
        };
        if hit {
            let ghost before = body@;
            let instr = body.remove(i);
            match instr {
                Instr::Call(loc, _, f2, cargs) => {
                    body.insert(i, Instr::Primop(loc, f2, cargs));
                    proof {
                        assert forall|m: int| 0 <= m < body@.len() && m != i implies #[trigger]
                        body@[m] == before[m] by {
                            if m < i {
                                assert(before.remove(i as int)[m] == before[m]);
                            } else {
                                assert(before.remove(i as int)[m - 1] == before[m]);
                            }
                        }
                        assert(body@[i as int] == Instr::Primop(loc, f2, cargs));
                    }
                },
                _ => {
                    proof {
                        assert(false);
                    }
                    return ;
                },
            }
        } else {
            proof {
                assert(!is_call_to(body@[i as int], prims@));
            }
        }
        i += 1;
    }
    defs.insert(k, Def::Fn(f, args, body));
    proof {
        assert(pre[k as int] matches Def::Fn(f0, a0, b0) && f0 == f && a0 == args && b0@ == body0);
    }
    proof {
        assert(forall|m: int|
            0 <= m < defs@.len() && m != k ==> defs@[m] == pre[m]);
    }
}

/// Whether a vector of names contains a name.
fn contains_name(names: &Vec<u32>, f: u32) -> (r: bool)
    ensures
        r == names@.contains(f),
{
    let mut k: usize = 0;
    while k < names.len()
        invariant
            k <= names@.len(),
            forall|i: int| 0 <= i < k ==> names@[i] != f,
        decreases names@.len() - k,
    {
        if names[k] == f {
            return true;
        }
        k += 1;
    }
    false
}


/// Every name a type mentions is interned.
pub open spec fn ty_names_ok(tab: Symtab, ty: Ty<String>) -> bool
    decreases ty,
{
    match ty {
        Ty::Enum(e) => tab.contains(e@),
        Ty::Struct(s) => tab.contains(s@),
        Ty::Union(u) => tab.contains(u@),
        Ty::Vector(t) => ty_names_ok(tab, *t),
        Ty::List(t) => ty_names_ok(tab, *t),
        Ty::Ref(t) => ty_names_ok(tab, *t),
        _ => true,
    }
}

/// The interned type mirrors the named type, name by name.
pub open spec fn ty_interned(tab: Symtab, ty: Ty<String>, tv: Ty<u32>) -> bool
    decreases ty,
{
    match (ty, tv) {
        (Ty::Lint, Ty::Lint) => true,
        (Ty::Fint(a), Ty::Fint(b)) => a == b,
        (Ty::Constant(a), Ty::Constant(b)) => a == b,
        (Ty::Lbits, Ty::Lbits) => true,
        (Ty::Sbits(a), Ty::Sbits(b)) => a == b,
        (Ty::Fbits(a), Ty::Fbits(b)) => a == b,
        (Ty::Unit, Ty::Unit) => true,
        (Ty::Bool, Ty::Bool) => true,
        (Ty::Bit, Ty::Bit) => true,
        (Ty::String, Ty::String) => true,
        (Ty::Real, Ty::Real) => true,
        (Ty::Enum(e), Ty::Enum(n)) => n < tab.view().len() && tab.view()[n as int] == e@,
        (Ty::Struct(s), Ty::Struct(n)) => n < tab.view().len() && tab.view()[n as int] == s@,
        (Ty::Union(u), Ty::Union(n)) => n < tab.view().len() && tab.view()[n as int] == u@,
        (Ty::Vector(t), Ty::Vector(v)) => ty_interned(tab, *t, *v),
        (Ty::List(t), Ty::List(v)) => ty_interned(tab, *t, *v),
        (Ty::Ref(t), Ty::Ref(v)) => ty_interned(tab, *t, *v),
        _ => false,
    }
}

/// Every name a location mentions is interned.
pub open spec fn loc_names_ok(tab: Symtab, loc: Loc<String>) -> bool
    decreases loc,
{
    match loc {
        Loc::Id(v) => tab.contains(v@),
        Loc::Field(l, f) => loc_names_ok(tab, *l) && tab.contains(f@),
        Loc::Addr(l) => loc_names_ok(tab, *l),
    }
}

/// The interned location mirrors the named location.
pub open spec fn loc_interned(tab: Symtab, loc: Loc<String>, lv: Loc<u32>) -> bool
    decreases loc,
{
    match (loc, lv) {
        (Loc::Id(v), Loc::Id(n)) => n < tab.view().len() && tab.view()[n as int] == v@,
        (Loc::Field(l, f), Loc::Field(l2, n)) => loc_interned(tab, *l, *l2) && n
            < tab.view().len() && tab.view()[n as int] == f@,
        (Loc::Addr(l), Loc::Addr(l2)) => loc_interned(tab, *l, *l2),
        _ => false,
    }
}

/// Every name an expression mentions is interned.
pub open spec fn exp_names_ok(tab: Symtab, exp: Exp<String>) -> bool
    decreases exp,
    via exp_names_ok_decreases
{
    match exp {
        Exp::Id(v) => tab.contains(v@),
        Exp::Ref(v) => tab.contains(v@),
        Exp::Struct(s, fields) => tab.contains(s@) && (forall|i: int|
            0 <= i < fields@.len() ==> tab.contains((#[trigger] fields@[i]).0@) && exp_names_ok(
                tab,
                fields@[i].1,
            )),
        Exp::Kind(c, e) => tab.contains(c@) && exp_names_ok(tab, *e),
        Exp::Unwrap(c, e) => tab.contains(c@) && exp_names_ok(tab, *e),
        Exp::Field(e, f) => exp_names_ok(tab, *e) && tab.contains(f@),
        Exp::Call(_, args) => forall|i: int|
            0 <= i < args@.len() ==> exp_names_ok(tab, #[trigger] args@[i]),
        _ => true,
    }
}

#[via_fn]
proof fn exp_names_ok_decreases(tab: Symtab, exp: Exp<String>) {
    match exp {
        Exp::Struct(s, fields) => {
            assert forall|i: int| 0 <= i < fields@.len() implies decreases_to!(
                exp => fields@[i].1
            ) by {
                assert(decreases_to!(exp => exp->Struct_1));
                assert(decreases_to!(exp->Struct_1 => exp->Struct_1@));
                assert(decreases_to!(exp->Struct_1@ => exp->Struct_1@[i]));
            }
        },
        Exp::Call(_, args) => {
            assert forall|i: int| 0 <= i < args@.len() implies decreases_to!(
                exp => args@[i]
            ) by {
                assert(decreases_to!(exp => exp->Call_1));
                assert(decreases_to!(exp->Call_1 => exp->Call_1@));
                assert(decreases_to!(exp->Call_1@ => exp->Call_1@[i]));
            }
        },
        _ => {},
    }
}

/// Every name an instruction mentions is interned, but for the variables
/// that declarations intern themselves.
pub open spec fn instr_names_ok(tab: Symtab, instr: Instr<String>) -> bool {
    match instr {
        Instr::Decl(_, ty) => ty_names_ok(tab, ty),
        Instr::Init(_, ty, exp) => ty_names_ok(tab, ty) && exp_names_ok(tab, exp),
        Instr::Jump(exp, _) => exp_names_ok(tab, exp),
        Instr::Goto(_) => true,
        Instr::Copy(loc, exp) => loc_names_ok(tab, loc) && exp_names_ok(tab, exp),
        Instr::Call(loc, _, f, args) => loc_names_ok(tab, loc) && tab.contains(f@) && (forall|
            i: int,
        |
            0 <= i < args@.len() ==> exp_names_ok(tab, #[trigger] args@[i])),
        Instr::Primop(_, _, _) => false,
        Instr::Failure => true,
        Instr::Arbitrary => true,
        Instr::End => true,
    }
}


/// The interned expression mirrors the named expression, node for node,
/// each name resolved in the table.
pub open spec fn exp_interned(tab: Symtab, exp: Exp<String>, ev: Exp<u32>) -> bool
    decreases exp,
    via exp_interned_decreases
{
    match (exp, ev) {
        (Exp::Id(v), Exp::Id(n)) => n < tab.view().len() && tab.view()[n as int] == v@,
        (Exp::Ref(v), Exp::Ref(n)) => n < tab.view().len() && tab.view()[n as int] == v@,
        (Exp::Bool(a), Exp::Bool(b)) => a == b,
        (Exp::Bit(a), Exp::Bit(b)) => a == b,
        (Exp::Bits(a), Exp::Bits(b)) => a == b,
        (Exp::String(a), Exp::String(b)) => a@ == b@,
        (Exp::Unit, Exp::Unit) => true,
        (Exp::Int(a), Exp::Int(b)) => a == b,
        (Exp::Struct(s, fs), Exp::Struct(n, gs)) => {
            &&& n < tab.view().len() && tab.view()[n as int] == s@
            &&& fs@.len() == gs@.len()
            &&& forall|i: int|
                0 <= i < fs@.len() ==> {
                    &&& (#[trigger] gs@[i]).0 < tab.view().len()
                    &&& tab.view()[gs@[i].0 as int] == fs@[i].0@
                    &&& exp_interned(tab, fs@[i].1, gs@[i].1)
                }
        },
        (Exp::Kind(c, e), Exp::Kind(n, f)) => n < tab.view().len() && tab.view()[n as int] == c@
            && exp_interned(tab, *e, *f),
        (Exp::Unwrap(c, e), Exp::Unwrap(n, f)) => n < tab.view().len() && tab.view()[n as int]
            == c@ && exp_interned(tab, *e, *f),
        (Exp::Field(e, f), Exp::Field(e2, n)) => exp_interned(tab, *e, *e2) && n
            < tab.view().len() && tab.view()[n as int] == f@,
        (Exp::Call(op, args), Exp::Call(op2, outs)) => {
            &&& op == op2
            &&& args@.len() == outs@.len()
            &&& forall|i: int|
                0 <= i < args@.len() ==> exp_interned(tab, #[trigger] args@[i], outs@[i])
        },
        _ => false,
    }
}

#[via_fn]
proof fn exp_interned_decreases(tab: Symtab, exp: Exp<String>, ev: Exp<u32>) {
    match exp {
        Exp::Struct(s, fields) => {
            assert forall|i: int| 0 <= i < fields@.len() implies decreases_to!(
                exp => fields@[i].1
            ) by {
                assert(decreases_to!(exp => exp->Struct_1));
                assert(decreases_to!(exp->Struct_1 => exp->Struct_1@));
                assert(decreases_to!(exp->Struct_1@ => exp->Struct_1@[i]));
            }
        },
        Exp::Call(_, args) => {
            assert forall|i: int| 0 <= i < args@.len() implies decreases_to!(
                exp => args@[i]
            ) by {
                assert(decreases_to!(exp => exp->Call_1));
                assert(decreases_to!(exp->Call_1 => exp->Call_1@));
                assert(decreases_to!(exp->Call_1@ => exp->Call_1@[i]));
            }
        },
        _ => {},
    }
}

/// The interned instruction mirrors the named instruction: labels and
/// flags are kept, every part is interned.
pub open spec fn instr_interned(tab: Symtab, instr: Instr<String>, iv: Instr<u32>) -> bool {
    match (instr, iv) {
        (Instr::Decl(v, ty), Instr::Decl(n, tv)) => n < tab.view().len() && tab.view()[n as int]
            == v@ && ty_interned(tab, ty, tv),
        (Instr::Init(v, ty, e), Instr::Init(n, tv, ev)) => n < tab.view().len()
            && tab.view()[n as int] == v@ && ty_interned(tab, ty, tv) && exp_interned(tab, e, ev),
        (Instr::Jump(e, l), Instr::Jump(ev, m)) => l == m && exp_interned(tab, e, ev),
        (Instr::Goto(l), Instr::Goto(m)) => l == m,
        (Instr::Copy(loc, e), Instr::Copy(lv, ev)) => loc_interned(tab, loc, lv) && exp_interned(
            tab,
            e,
            ev,
        ),
        (Instr::Call(loc, b, f, args), Instr::Call(lv, b2, n, outs)) => {
            &&& loc_interned(tab, loc, lv)
            &&& b == b2
            &&& n < tab.view().len() && tab.view()[n as int] == f@
            &&& args@.len() == outs@.len()
            &&& forall|i: int|
                0 <= i < args@.len() ==> exp_interned(tab, #[trigger] args@[i], outs@[i])
        },
        (Instr::Failure, Instr::Failure) => true,
        (Instr::Arbitrary, Instr::Arbitrary) => true,
        (Instr::End, Instr::End) => true,
        _ => false,
    }
}


/// An interned type stays interned when the table grows.
pub proof fn lemma_ty_interned_mono(t1: Symtab, t2: Symtab, ty: Ty<String>, tv: Ty<u32>)
    requires
        ty_interned(t1, ty, tv),
        t1.view().is_prefix_of(t2.view()),
    ensures
        ty_interned(t2, ty, tv),
    decreases ty,
{
    match (ty, tv) {
        (Ty::Vector(t), Ty::Vector(v)) => lemma_ty_interned_mono(t1, t2, *t, *v),
        (Ty::List(t), Ty::List(v)) => lemma_ty_interned_mono(t1, t2, *t, *v),
        (Ty::Ref(t), Ty::Ref(v)) => lemma_ty_interned_mono(t1, t2, *t, *v),
        _ => {},
    }
}

/// An interned location stays interned when the table grows.
pub proof fn lemma_loc_interned_mono(t1: Symtab, t2: Symtab, loc: Loc<String>, lv: Loc<u32>)
    requires
        loc_interned(t1, loc, lv),
        t1.view().is_prefix_of(t2.view()),
    ensures
        loc_interned(t2, loc, lv),
    decreases loc,
{
    match (loc, lv) {
        (Loc::Field(l, _), Loc::Field(l2, _)) => lemma_loc_interned_mono(t1, t2, *l, *l2),
        (Loc::Addr(l), Loc::Addr(l2)) => lemma_loc_interned_mono(t1, t2, *l, *l2),
        _ => {},
    }
}

/// An interned expression stays interned when the table grows.
pub proof fn lemma_exp_interned_mono(t1: Symtab, t2: Symtab, exp: Exp<String>, ev: Exp<u32>)
    requires
        exp_interned(t1, exp, ev),
        t1.view().is_prefix_of(t2.view()),
    ensures
        exp_interned(t2, exp, ev),
    decreases exp,
{
    match (exp, ev) {
        (Exp::Struct(s, fs), Exp::Struct(n, gs)) => {
            assert forall|i: int| 0 <= i < fs@.len() implies {
                &&& (#[trigger] gs@[i]).0 < t2.view().len()
                &&& t2.view()[gs@[i].0 as int] == fs@[i].0@
                &&& exp_interned(t2, fs@[i].1, gs@[i].1)
            } by {
                assert(decreases_to!(exp => exp->Struct_1));
                assert(decreases_to!(exp->Struct_1 => exp->Struct_1@));
                assert(decreases_to!(exp->Struct_1@ => exp->Struct_1@[i]));
                assert(decreases_to!(exp->Struct_1@[i] => exp->Struct_1@[i].1));
                lemma_exp_interned_mono(t1, t2, fs@[i].1, gs@[i].1);
            }
        },
        (Exp::Kind(_, e), Exp::Kind(_, f)) => lemma_exp_interned_mono(t1, t2, *e, *f),
        (Exp::Unwrap(_, e), Exp::Unwrap(_, f)) => lemma_exp_interned_mono(t1, t2, *e, *f),
        (Exp::Field(e, _), Exp::Field(e2, _)) => lemma_exp_interned_mono(t1, t2, *e, *e2),
        (Exp::Call(_, args), Exp::Call(_, outs)) => {
            assert forall|i: int| 0 <= i < args@.len() implies exp_interned(
                t2,
                #[trigger] args@[i],
                outs@[i],
            ) by {
                assert(decreases_to!(exp => exp->Call_1));
                assert(decreases_to!(exp->Call_1 => exp->Call_1@));
                assert(decreases_to!(exp->Call_1@ => exp->Call_1@[i]));
                lemma_exp_interned_mono(t1, t2, args@[i], outs@[i]);
            }
        },
        _ => {},
    }
}

/// An interned instruction stays interned when the table grows.
pub proof fn lemma_instr_interned_mono(t1: Symtab, t2: Symtab, instr: Instr<String>, iv: Instr<u32>)
    requires
        instr_interned(t1, instr, iv),
        t1.view().is_prefix_of(t2.view()),
    ensures
        instr_interned(t2, instr, iv),
{
    match (instr, iv) {
        (Instr::Decl(_, ty), Instr::Decl(_, tv)) => lemma_ty_interned_mono(t1, t2, ty, tv),
        (Instr::Init(_, ty, e), Instr::Init(_, tv, ev)) => {
            lemma_ty_interned_mono(t1, t2, ty, tv);
            lemma_exp_interned_mono(t1, t2, e, ev);
        },
        (Instr::Jump(e, _), Instr::Jump(ev, _)) => lemma_exp_interned_mono(t1, t2, e, ev),
        (Instr::Copy(loc, e), Instr::Copy(lv, ev)) => {
            lemma_loc_interned_mono(t1, t2, loc, lv);
            lemma_exp_interned_mono(t1, t2, e, ev);
        },
        (Instr::Call(loc, _, _, args), Instr::Call(lv, _, _, outs)) => {
            lemma_loc_interned_mono(t1, t2, loc, lv);
            assert forall|i: int| 0 <= i < args@.len() implies exp_interned(
                t2,
                #[trigger] args@[i],
                outs@[i],
            ) by {
                lemma_exp_interned_mono(t1, t2, args@[i], outs@[i]);
            }
        },
        _ => {},
    }
}

impl Symtab {
    /// Intern the names of a type. The table is unchanged: types only look
    /// names up.
    pub fn intern_ty(&mut self, ty: &Ty<String>) -> (r: Ty<u32>)
        requires
            old(self).wf(),
            ty_names_ok(*old(self), *ty),
        ensures
            *final(self) == *old(self),
            ty_interned(*final(self), *ty, r),
        decreases *ty,
    {
        match ty {
            Ty::Lint => Ty::Lint,
            Ty::Fint(sz) => Ty::Fint(*sz),
            Ty::Constant(c) => Ty::Constant(*c),
            Ty::Lbits => Ty::Lbits,
            Ty::Sbits(sz) => Ty::Sbits(*sz),
            Ty::Fbits(sz) => Ty::Fbits(*sz),
            Ty::Unit => Ty::Unit,
            Ty::Bool => Ty::Bool,
            Ty::Bit => Ty::Bit,
            Ty::String => Ty::String,
            Ty::Real => Ty::Real,
            Ty::Enum(e) => Ty::Enum(self.lookup(e.as_str())),
            Ty::Struct(s) => Ty::Struct(self.lookup(s.as_str())),
            Ty::Union(u) => Ty::Union(self.lookup(u.as_str())),
            Ty::Vector(t) => Ty::Vector(Box::new(self.intern_ty(t))),
            Ty::List(t) => Ty::List(Box::new(self.intern_ty(t))),
            Ty::Ref(t) => Ty::Ref(Box::new(self.intern_ty(t))),
        }
    }

    /// Intern the names of a location. The table is unchanged.
    pub fn intern_loc(&mut self, loc: &Loc<String>) -> (r: Loc<u32>)
        requires
            old(self).wf(),
            loc_names_ok(*old(self), *loc),
        ensures
            *final(self) == *old(self),
            loc_interned(*final(self), *loc, r),
        decreases *loc,
    {
        match loc {
            Loc::Id(v) => Loc::Id(self.lookup(v.as_str())),
            Loc::Field(l, f) => Loc::Field(
                Box::new(self.intern_loc(l)),
                self.lookup(f.as_str()),
            ),
            Loc::Addr(l) => Loc::Addr(Box::new(self.intern_loc(l))),
        }
    }

    /// Intern the names of an expression. The table is unchanged:
    /// expressions only look names up, and a union destructor keeps its
    /// own constructor form.
    pub fn intern_exp(&mut self, exp: &Exp<String>) -> (r: Exp<u32>)
        requires
            old(self).wf(),
            exp_names_ok(*old(self), *exp),
        ensures
            *final(self) == *old(self),
            exp_interned(*final(self), *exp, r),
        decreases *exp,
    {
        match exp {
            Exp::Id(v) => Exp::Id(self.lookup(v.as_str())),
            Exp::Ref(v) => Exp::Ref(self.lookup(v.as_str())),
            Exp::Bool(b) => Exp::Bool(*b),
            Exp::Bit(b) => Exp::Bit(*b),
            Exp::Bits(bv) => Exp::Bits(*bv),
            Exp::String(s) => Exp::String(s.clone()),
            Exp::Unit => Exp::Unit,
            Exp::Int(i) => Exp::Int(*i),
            Exp::Struct(s, fields) => {
                let name = self.lookup(s.as_str());
                let mut out: Vec<(u32, Exp<u32>)> = Vec::new();
                let mut k: usize = 0;
                while k < fields.len()
                    invariant
                        self.wf(),
                        *self == *old(self),
                        *exp matches Exp::Struct(s2, fs) && fs == *fields,
                        exp_names_ok(*old(self), *exp),
                        k <= fields@.len(),
                        out@.len() == k as int,
                        forall|i: int|
                            0 <= i < k ==> {
                                &&& (#[trigger] out@[i]).0 < self.view().len()
                                &&& self.view()[out@[i].0 as int] == fields@[i].0@
                                &&& exp_interned(*self, fields@[i].1, out@[i].1)
                            },
                    decreases fields@.len() - k,
                {
                    proof {
                        let e = *exp;
                        assert(decreases_to!(e => e->Struct_1));
                        assert(decreases_to!(e->Struct_1 => e->Struct_1@));
                        assert(decreases_to!(e->Struct_1@ => e->Struct_1@[k as int]));
                        assert(decreases_to!(e->Struct_1@[k as int] => e->Struct_1@[k as int].1));
                        assert(exp_names_ok(*old(self), fields@[k as int].1));
                        assert(old(self).contains(fields@[k as int].0@));
                    }
                    let fname = self.lookup(fields[k].0.as_str());
                    let fexp = self.intern_exp(&fields[k].1);
                    out.push((fname, fexp));
                    k += 1;
                }
                Exp::Struct(name, out)
            },
            Exp::Kind(c, e) => Exp::Kind(self.lookup(c.as_str()), Box::new(self.intern_exp(e))),
            Exp::Unwrap(c, e) => Exp::Unwrap(
                self.lookup(c.as_str()),
                Box::new(self.intern_exp(e)),
            ),
            Exp::Field(e, f) => {
                let inner = self.intern_exp(e);
                Exp::Field(Box::new(inner), self.lookup(f.as_str()))
            },
            Exp::Call(op, args) => {
                let mut out: Vec<Exp<u32>> = Vec::new();
                let mut k: usize = 0;
                while k < args.len()
                    invariant
                        self.wf(),
                        *self == *old(self),
                        *exp matches Exp::Call(op2, ags) && ags == *args,
                        exp_names_ok(*old(self), *exp),
                        k <= args@.len(),
                        out@.len() == k as int,
                        forall|i: int|
                            0 <= i < k ==> exp_interned(*self, #[trigger] args@[i], out@[i]),
                    decreases args@.len() - k,
                {
                    proof {
                        let e = *exp;
                        assert(decreases_to!(e => e->Call_1));
                        assert(decreases_to!(e->Call_1 => e->Call_1@));
                        assert(decreases_to!(e->Call_1@ => e->Call_1@[k as int]));
                        assert(exp_names_ok(*old(self), args@[k as int]));
                    }
                    let aexp = self.intern_exp(&args[k]);
                    out.push(aexp);
                    k += 1;
                }
                Exp::Call(*op, out)
            },
        }
    }

    /// Intern the names of an instruction: declarations intern their
    /// variable, everything else looks names up, and the table only grows.
    pub fn intern_instr(&mut self, instr: &Instr<String>) -> (r: Result<Instr<u32>, ()>)
        requires
            old(self).wf(),
            instr_names_ok(*old(self), *instr),
            old(self).view().len() + 1 < u32::MAX,
        ensures
            final(self).wf(),
            old(self).view().is_prefix_of(final(self).view()),
            final(self).view().len() <= old(self).view().len() + 1,
            r is Ok,
            r matches Ok(iv) ==> instr_interned(*final(self), *instr, iv),
    {
        match instr {
            Instr::Decl(v, ty) => {
                let tv = self.intern_ty(ty);
                let ghost mid = *self;
                let n = self.intern_str(v.as_str());
                proof {
                    lemma_ty_interned_mono(mid, *self, *ty, tv);
                }
                Ok(Instr::Decl(n, tv))
            },
            Instr::Init(v, ty, exp) => {
                let ev = self.intern_exp(exp);
                let tv = self.intern_ty(ty);
                let ghost mid = *self;
                let n = self.intern_str(v.as_str());
                proof {
                    lemma_ty_interned_mono(mid, *self, *ty, tv);
                    lemma_exp_interned_mono(mid, *self, *exp, ev);
                }
                Ok(Instr::Init(n, tv, ev))
            },
            Instr::Jump(exp, target) => Ok(Instr::Jump(self.intern_exp(exp), *target)),
            Instr::Goto(target) => Ok(Instr::Goto(*target)),
            Instr::Copy(loc, exp) => {
                let lv = self.intern_loc(loc);
                let ev = self.intern_exp(exp);
                Ok(Instr::Copy(lv, ev))
            },
            Instr::Call(loc, ext, f, args) => {
                let lv = self.intern_loc(loc);
                let fname = self.lookup(f.as_str());
                let mut out: Vec<Exp<u32>> = Vec::new();
                let mut k: usize = 0;
                while k < args.len()
                    invariant
                        self.wf(),
                        *self == *old(self),
                        *instr matches Instr::Call(l2, e2, f2, ags) && ags == *args,
                        instr_names_ok(*old(self), *instr),
                        k <= args@.len(),
                        out@.len() == k as int,
                        forall|i: int|
                            0 <= i < k ==> exp_interned(*self, #[trigger] args@[i], out@[i]),
                    decreases args@.len() - k,
                {
                    proof {
                        assert(exp_names_ok(*old(self), args@[k as int]));
                    }
                    let aexp = self.intern_exp(&args[k]);
                    out.push(aexp);
                    k += 1;
                }
                Ok(Instr::Call(lv, *ext, fname, out))
            },
            // the primop form only exists after the insertion pass
            Instr::Primop(_, _, _) => {
                proof {
                    assert(false);
                }
                Err(())
            },
            Instr::Failure => Ok(Instr::Failure),
            Instr::Arbitrary => Ok(Instr::Arbitrary),
            Instr::End => Ok(Instr::End),
        }
    }
}

/// Every name a definition mentions is interned, but for the names the
/// definition itself interns.
pub open spec fn def_names_ok(tab: Symtab, def: Def<String>) -> bool {
    match def {
        Def::Register(_, ty) => ty_names_ok(tab, ty),
        Def::Let(bindings, setup) => (forall|i: int|
            0 <= i < bindings@.len() ==> ty_names_ok(tab, (#[trigger] bindings@[i]).1)) && (forall|
            i: int,
        | 0 <= i < setup@.len() ==> instr_names_ok(tab, #[trigger] setup@[i])),
        Def::Enum(_, _) => true,
        Def::Struct(_, fields) => forall|i: int|
            0 <= i < fields@.len() ==> ty_names_ok(tab, (#[trigger] fields@[i]).1),
        Def::Union(_, ctors) => forall|i: int|
            0 <= i < ctors@.len() ==> ty_names_ok(tab, (#[trigger] ctors@[i]).1),
        Def::Val(_, args, ret) => (forall|i: int|
            0 <= i < args@.len() ==> ty_names_ok(tab, #[trigger] args@[i])) && ty_names_ok(
            tab,
            ret,
        ),
        Def::Fn(f, _, body) => tab.contains(f@) && (forall|i: int|
            0 <= i < body@.len() ==> instr_names_ok(tab, #[trigger] body@[i])),
    }
}



/// The interned definition mirrors the named definition, part for part,
/// each name resolved in the table as it stands after the definition.
pub open spec fn def_interned(tab: Symtab, def: Def<String>, dv: Def<u32>) -> bool {
    match (def, dv) {
        (Def::Register(v, ty), Def::Register(n, tv)) => n < tab.view().len()
            && tab.view()[n as int] == v@ && ty_interned(tab, ty, tv),
        (Def::Let(bs, setup), Def::Let(bvs, ivs)) => {
            &&& bs@.len() == bvs@.len()
            &&& forall|i: int|
                0 <= i < bs@.len() ==> {
                    &&& (#[trigger] bvs@[i]).0 < tab.view().len()
                    &&& tab.view()[bvs@[i].0 as int] == bs@[i].0@
                    &&& ty_interned(tab, bs@[i].1, bvs@[i].1)
                }
            &&& setup@.len() == ivs@.len()
            &&& forall|i: int|
                0 <= i < setup@.len() ==> instr_interned(tab, #[trigger] setup@[i], ivs@[i])
        },
        (Def::Enum(e, cs), Def::Enum(n, cvs)) => {
            &&& n < tab.view().len() && tab.view()[n as int] == e@
            &&& cs@.len() == cvs@.len()
            &&& forall|i: int|
                0 <= i < cs@.len() ==> (#[trigger] cvs@[i]) < tab.view().len()
                    && tab.view()[cvs@[i] as int] == cs@[i]@
        },
        (Def::Struct(s, fs), Def::Struct(n, fvs)) => {
            &&& n < tab.view().len() && tab.view()[n as int] == s@
            &&& fs@.len() == fvs@.len()
            &&& forall|i: int|
                0 <= i < fs@.len() ==> {
                    &&& (#[trigger] fvs@[i]).0 < tab.view().len()
                    &&& tab.view()[fvs@[i].0 as int] == fs@[i].0@
                    &&& ty_interned(tab, fs@[i].1, fvs@[i].1)
                }
        },
        (Def::Union(u, cs), Def::Union(n, cvs)) => {
            &&& n < tab.view().len() && tab.view()[n as int] == u@
            &&& cs@.len() == cvs@.len()
            &&& forall|i: int|
                0 <= i < cs@.len() ==> {
                    &&& (#[trigger] cvs@[i]).0 < tab.view().len()
                    &&& tab.view()[cvs@[i].0 as int] == cs@[i].0@
                    &&& ty_interned(tab, cs@[i].1, cvs@[i].1)
                }
        },
        (Def::Val(f, args, ret), Def::Val(n, avs, rv)) => {
            &&& n < tab.view().len() && tab.view()[n as int] == f@
            &&& args@.len() == avs@.len()
            &&& forall|i: int|
                0 <= i < args@.len() ==> ty_interned(tab, #[trigger] args@[i], avs@[i])
            &&& ty_interned(tab, ret, rv)
        },
        (Def::Fn(f, args, body), Def::Fn(n, avs, ivs)) => {
            &&& n < tab.view().len() && tab.view()[n as int] == f@
            &&& args@.len() == avs@.len()
            &&& forall|i: int|
                0 <= i < args@.len() ==> (#[trigger] avs@[i]) < tab.view().len()
                    && tab.view()[avs@[i] as int] == args@[i]@
            &&& body@.len() == ivs@.len()
            &&& forall|i: int|
                0 <= i < body@.len() ==> instr_interned(tab, #[trigger] body@[i], ivs@[i])
        },
        _ => false,
    }
}


/// An interned definition stays interned when the table grows.
pub proof fn lemma_def_interned_mono(t1: Symtab, t2: Symtab, def: Def<String>, dv: Def<u32>)
    requires
        def_interned(t1, def, dv),
        t1.view().is_prefix_of(t2.view()),
    ensures
        def_interned(t2, def, dv),
{
    assert(t1.view() == t2.view().subrange(0, t1.view().len() as int));
    match (def, dv) {
        (Def::Register(_, ty), Def::Register(_, tv)) => lemma_ty_interned_mono(t1, t2, ty, tv),
        (Def::Let(bs, setup), Def::Let(bvs, ivs)) => {
            assert forall|i: int| 0 <= i < bs@.len() implies ty_interned(
                t2,
                bs@[i].1,
                (#[trigger] bvs@[i]).1,
            ) by {
                lemma_ty_interned_mono(t1, t2, bs@[i].1, bvs@[i].1);
            }
            assert forall|i: int| 0 <= i < setup@.len() implies instr_interned(
                t2,
                #[trigger] setup@[i],
                ivs@[i],
            ) by {
                lemma_instr_interned_mono(t1, t2, setup@[i], ivs@[i]);
            }
        },
        (Def::Struct(_, fs), Def::Struct(_, fvs)) => {
            assert forall|i: int| 0 <= i < fs@.len() implies ty_interned(
                t2,
                fs@[i].1,
                (#[trigger] fvs@[i]).1,
            ) by {
                lemma_ty_interned_mono(t1, t2, fs@[i].1, fvs@[i].1);
            }
        },
        (Def::Union(_, cs), Def::Union(_, cvs)) => {
            assert forall|i: int| 0 <= i < cs@.len() implies ty_interned(
                t2,
                cs@[i].1,
                (#[trigger] cvs@[i]).1,
            ) by {
                lemma_ty_interned_mono(t1, t2, cs@[i].1, cvs@[i].1);
            }
        },
        (Def::Val(_, args, ret), Def::Val(_, avs, rv)) => {
            assert forall|i: int| 0 <= i < args@.len() implies ty_interned(
                t2,
                #[trigger] args@[i],
                avs@[i],
            ) by {
                lemma_ty_interned_mono(t1, t2, args@[i], avs@[i]);
            }
            lemma_ty_interned_mono(t1, t2, ret, rv);
        },
        (Def::Fn(_, _, body), Def::Fn(_, _, ivs)) => {
            assert forall|i: int| 0 <= i < body@.len() implies instr_interned(
                t2,
                #[trigger] body@[i],
                ivs@[i],
            ) by {
                lemma_instr_interned_mono(t1, t2, body@[i], ivs@[i]);
            }
        },
        _ => {},
    }
}

/// How many fresh names interning a definition can add to the table.
pub open spec fn def_new_names(def: Def<String>) -> nat {
    match def {
        Def::Register(_, _) => 1,
        Def::Let(bindings, setup) => bindings@.len() + setup@.len(),
        Def::Enum(_, ctors) => 1 + ctors@.len(),
        Def::Struct(_, fields) => 1 + fields@.len(),
        Def::Union(_, ctors) => 1 + ctors@.len(),
        Def::Val(_, _, _) => 1,
        Def::Fn(_, args, body) => args@.len() + body@.len(),
    }
}

impl Symtab {
    /// Intern the names of a definition. Registers, bindings, type names
    /// and signatures intern their names; a function definition looks its
    /// own name up, which its value declaration interned. A union is
    /// interned as a union.
    pub fn intern_def(&mut self, def: &Def<String>) -> (r: Result<Def<u32>, ()>)
        requires
            old(self).wf(),
            def_names_ok(*old(self), *def),
            old(self).view().len() + def_new_names(*def) + 1 < u32::MAX,
        ensures
            final(self).wf(),
            old(self).view().is_prefix_of(final(self).view()),
            final(self).view().len() <= old(self).view().len() + def_new_names(*def),
            r is Ok,
            r matches Ok(dv) ==> def_interned(*final(self), *def, dv),
    {
        match def {
            Def::Register(reg, ty) => {
                let tv = self.intern_ty(ty);
                let ghost mid = *self;
                let n = self.intern_str(reg.as_str());
                proof {
                    lemma_ty_interned_mono(mid, *self, *ty, tv);
                }
                Ok(Def::Register(n, tv))
            },
            Def::Let(bindings, setup) => {
                let mut bs: Vec<(u32, Ty<u32>)> = Vec::new();
                let mut k: usize = 0;
                while k < bindings.len()
                    invariant
                        self.wf(),
                        *def matches Def::Let(b2, s2) && b2 == *bindings && s2 == *setup,
                        def_names_ok(*old(self), *def),
                        old(self).view().is_prefix_of(self.view()),
                        self.view().len() <= old(self).view().len() + k,
                        old(self).view().len() + def_new_names(*def) + 1 < u32::MAX,
                        k <= bindings@.len(),
                        bs@.len() == k as int,
                        forall|i: int|
                            0 <= i < k ==> {
                                &&& (#[trigger] bs@[i]).0 < self.view().len()
                                &&& self.view()[bs@[i].0 as int] == bindings@[i].0@
                                &&& ty_interned(*self, bindings@[i].1, bs@[i].1)
                            },
                    decreases bindings@.len() - k,
                {
                    let ghost prev = *self;
                    proof {
                        lemma_names_ok_grows_ty(*old(self), *self, bindings@[k as int].1);
                    }
                    let tv = self.intern_ty(&bindings[k].1);
                    let n = self.intern_str(bindings[k].0.as_str());
                    bs.push((n, tv));
                    proof {
                        assert(prev.view() == self.view().subrange(0, prev.view().len() as int));
                        lemma_ty_interned_mono(prev, *self, bindings@[k as int].1, tv);
                        assert forall|i: int| 0 <= i < k implies ty_interned(
                            *self,
                            bindings@[i].1,
                            #[trigger] bs@[i].1,
                        ) by {
                            lemma_ty_interned_mono(prev, *self, bindings@[i].1, bs@[i].1);
                        }
                    }
                    k += 1;
                }
                let mut is: Vec<Instr<u32>> = Vec::new();
                let mut j: usize = 0;
                while j < setup.len()
                    invariant
                        self.wf(),
                        *def matches Def::Let(b2, s2) && b2 == *bindings && s2 == *setup,
                        def_names_ok(*old(self), *def),
                        old(self).view().is_prefix_of(self.view()),
                        self.view().len() <= old(self).view().len() + bindings@.len() + j,
                        old(self).view().len() + def_new_names(*def) + 1 < u32::MAX,
                        j <= setup@.len(),
                        bs@.len() == bindings@.len(),
                        forall|i: int|
                            0 <= i < bindings@.len() ==> {
                                &&& (#[trigger] bs@[i]).0 < self.view().len()
                                &&& self.view()[bs@[i].0 as int] == bindings@[i].0@
                                &&& ty_interned(*self, bindings@[i].1, bs@[i].1)
                            },
                        is@.len() == j as int,
                        forall|i: int|
                            0 <= i < j ==> instr_interned(*self, #[trigger] setup@[i], is@[i]),
                    decreases setup@.len() - j,
                {
                    let ghost prev = *self;
                    proof {
                        lemma_names_ok_grows_instr(*old(self), *self, setup@[j as int]);
                    }
                    match self.intern_instr(&setup[j]) {
                        Ok(iv) => {
                            is.push(iv);
                            proof {
                                assert(prev.view() == self.view().subrange(
                                    0,
                                    prev.view().len() as int,
                                ));
                                assert forall|i: int| 0 <= i < bindings@.len() implies ty_interned(
                                    *self,
                                    bindings@[i].1,
                                    #[trigger] bs@[i].1,
                                ) by {
                                    lemma_ty_interned_mono(prev, *self, bindings@[i].1, bs@[i].1);
                                }
                                assert forall|i: int| 0 <= i < j implies instr_interned(
                                    *self,
                                    #[trigger] setup@[i],
                                    is@[i],
                                ) by {
                                    lemma_instr_interned_mono(prev, *self, setup@[i], is@[i]);
                                }
                            }
                        },
                        Err(_) => {
                            proof {
                                assert(false);
                            }
                            return Err(());
                        },
                    }
                    j += 1;
                }
                Ok(Def::Let(bs, is))
            },
            Def::Enum(e, ctors) => {
                let n = self.intern_str(e.as_str());
                let mut cs: Vec<u32> = Vec::new();
                let mut k: usize = 0;
                while k < ctors.len()
                    invariant
                        self.wf(),
                        *def matches Def::Enum(e2, c2) && c2 == *ctors,
                        old(self).view().is_prefix_of(self.view()),
                        self.view().len() <= old(self).view().len() + 1 + k,
                        old(self).view().len() + def_new_names(*def) + 1 < u32::MAX,
                        k <= ctors@.len(),
                        n < self.view().len() && self.view()[n as int] == e@,
                        cs@.len() == k as int,
                        forall|i: int|
                            0 <= i < k ==> (#[trigger] cs@[i]) < self.view().len()
                                && self.view()[cs@[i] as int] == ctors@[i]@,
                    decreases ctors@.len() - k,
                {
                    let ghost prev = *self;
                    let c = self.intern_str(ctors[k].as_str());
                    cs.push(c);
                    proof {
                        assert(prev.view() == self.view().subrange(0, prev.view().len() as int));
                    }
                    k += 1;
                }
                Ok(Def::Enum(n, cs))
            },
            Def::Struct(s, fields) => {
                let n = self.intern_str(s.as_str());
                let mut fs: Vec<(u32, Ty<u32>)> = Vec::new();
                let mut k: usize = 0;
                while k < fields.len()
                    invariant
                        self.wf(),
                        *def matches Def::Struct(s2, f2) && f2 == *fields,
                        def_names_ok(*old(self), *def),
                        old(self).view().is_prefix_of(self.view()),
                        self.view().len() <= old(self).view().len() + 1 + k,
                        old(self).view().len() + def_new_names(*def) + 1 < u32::MAX,
                        k <= fields@.len(),
                        n < self.view().len() && self.view()[n as int] == s@,
                        fs@.len() == k as int,
                        forall|i: int|
                            0 <= i < k ==> {
                                &&& (#[trigger] fs@[i]).0 < self.view().len()
                                &&& self.view()[fs@[i].0 as int] == fields@[i].0@
                                &&& ty_interned(*self, fields@[i].1, fs@[i].1)
                            },
                    decreases fields@.len() - k,
                {
                    let ghost prev = *self;
                    proof {
                        lemma_names_ok_grows_ty(*old(self), *self, fields@[k as int].1);
                    }
                    let tv = self.intern_ty(&fields[k].1);
                    let fname = self.intern_str(fields[k].0.as_str());
                    fs.push((fname, tv));
                    proof {
                        assert(prev.view() == self.view().subrange(0, prev.view().len() as int));
                        lemma_ty_interned_mono(prev, *self, fields@[k as int].1, tv);
                        assert forall|i: int| 0 <= i < k implies ty_interned(
                            *self,
                            fields@[i].1,
                            #[trigger] fs@[i].1,
                        ) by {
                            lemma_ty_interned_mono(prev, *self, fields@[i].1, fs@[i].1);
                        }
                    }
                    k += 1;
                }
                Ok(Def::Struct(n, fs))
            },
            Def::Union(u, ctors) => {
                let n = self.intern_str(u.as_str());
                let mut cs: Vec<(u32, Ty<u32>)> = Vec::new();
                let mut k: usize = 0;
                while k < ctors.len()
                    invariant
                        self.wf(),
                        *def matches Def::Union(u2, c2) && c2 == *ctors,
                        def_names_ok(*old(self), *def),
                        old(self).view().is_prefix_of(self.view()),
                        self.view().len() <= old(self).view().len() + 1 + k,
                        old(self).view().len() + def_new_names(*def) + 1 < u32::MAX,
                        k <= ctors@.len(),
                        n < self.view().len() && self.view()[n as int] == u@,
                        cs@.len() == k as int,
                        forall|i: int|
                            0 <= i < k ==> {
                                &&& (#[trigger] cs@[i]).0 < self.view().len()
                                &&& self.view()[cs@[i].0 as int] == ctors@[i].0@
                                &&& ty_interned(*self, ctors@[i].1, cs@[i].1)
                            },
                    decreases ctors@.len() - k,
                {
                    let ghost prev = *self;
                    proof {
                        lemma_names_ok_grows_ty(*old(self), *self, ctors@[k as int].1);
                    }
                    let tv = self.intern_ty(&ctors[k].1);
                    let cname = self.intern_str(ctors[k].0.as_str());
                    cs.push((cname, tv));
                    proof {
                        assert(prev.view() == self.view().subrange(0, prev.view().len() as int));
                        lemma_ty_interned_mono(prev, *self, ctors@[k as int].1, tv);
                        assert forall|i: int| 0 <= i < k implies ty_interned(
                            *self,
                            ctors@[i].1,
                            #[trigger] cs@[i].1,
                        ) by {
                            lemma_ty_interned_mono(prev, *self, ctors@[i].1, cs@[i].1);
                        }
                    }
                    k += 1;
                }
                Ok(Def::Union(n, cs))
            },
            Def::Val(f, args, ret) => {
                let mut avs: Vec<Ty<u32>> = Vec::new();
                let mut k: usize = 0;
                while k < args.len()
                    invariant
                        self.wf(),
                        *self == *old(self),
                        *def matches Def::Val(f2, a2, r2) && a2 == *args,
                        def_names_ok(*old(self), *def),
                        k <= args@.len(),
                        avs@.len() == k as int,
                        forall|i: int|
                            0 <= i < k ==> ty_interned(*self, #[trigger] args@[i], avs@[i]),
                    decreases args@.len() - k,
                {
                    proof {
                        assert(ty_names_ok(*old(self), args@[k as int]));
                    }
                    let tv = self.intern_ty(&args[k]);
                    avs.push(tv);
                    k += 1;
                }
                let rv = self.intern_ty(ret);
                let ghost mid = *self;
                let n = self.intern_str(f.as_str());
                proof {
                    assert(mid.view() == self.view().subrange(0, mid.view().len() as int));
                    lemma_ty_interned_mono(mid, *self, *ret, rv);
                    assert forall|i: int| 0 <= i < args@.len() implies ty_interned(
                        *self,
                        #[trigger] args@[i],
                        avs@[i],
                    ) by {
                        lemma_ty_interned_mono(mid, *self, args@[i], avs@[i]);
                    }
                }
                Ok(Def::Val(n, avs, rv))
            },
            Def::Fn(f, args, body) => {
                let n = self.lookup(f.as_str());
                let mut avs: Vec<u32> = Vec::new();
                let mut k: usize = 0;
                while k < args.len()
                    invariant
                        self.wf(),
                        *def matches Def::Fn(f2, a2, b2) && a2 == *args && b2 == *body,
                        old(self).view().is_prefix_of(self.view()),
                        self.view().len() <= old(self).view().len() + k,
                        old(self).view().len() + def_new_names(*def) + 1 < u32::MAX,
                        k <= args@.len(),
                        n < self.view().len() && self.view()[n as int] == f@,
                        avs@.len() == k as int,
                        forall|i: int|
                            0 <= i < k ==> (#[trigger] avs@[i]) < self.view().len()
                                && self.view()[avs@[i] as int] == args@[i]@,
                    decreases args@.len() - k,
                {
                    let ghost prev = *self;
                    let av = self.intern_str(args[k].as_str());
                    avs.push(av);
                    proof {
                        assert(prev.view() == self.view().subrange(0, prev.view().len() as int));
                    }
                    k += 1;
                }
                let mut is: Vec<Instr<u32>> = Vec::new();
                let mut j: usize = 0;
                while j < body.len()
                    invariant
                        self.wf(),
                        *def matches Def::Fn(f2, a2, b2) && a2 == *args && b2 == *body,
                        def_names_ok(*old(self), *def),
                        old(self).view().is_prefix_of(self.view()),
                        self.view().len() <= old(self).view().len() + args@.len() + j,
                        old(self).view().len() + def_new_names(*def) + 1 < u32::MAX,
                        j <= body@.len(),
                        n < self.view().len() && self.view()[n as int] == f@,
                        avs@.len() == args@.len(),
                        forall|i: int|
                            0 <= i < args@.len() ==> (#[trigger] avs@[i]) < self.view().len()
                                && self.view()[avs@[i] as int] == args@[i]@,
                        is@.len() == j as int,
                        forall|i: int|
                            0 <= i < j ==> instr_interned(*self, #[trigger] body@[i], is@[i]),
                    decreases body@.len() - j,
                {
                    let ghost prev = *self;
                    proof {
                        lemma_names_ok_grows_instr(*old(self), *self, body@[j as int]);
                    }
                    match self.intern_instr(&body[j]) {
                        Ok(iv) => {
                            is.push(iv);
                            proof {
                                assert(prev.view() == self.view().subrange(
                                    0,
                                    prev.view().len() as int,
                                ));
                                assert forall|i: int| 0 <= i < j implies instr_interned(
                                    *self,
                                    #[trigger] body@[i],
                                    is@[i],
                                ) by {
                                    lemma_instr_interned_mono(prev, *self, body@[i], is@[i]);
                                }
                            }
                        },
                        Err(_) => {
                            proof {
                                assert(false);
                            }
                            return Err(());
                        },
                    }
                    j += 1;
                }
                Ok(Def::Fn(n, avs, is))
            },
        }
    }

    /// Intern an array of definitions in order.
    pub fn intern_defs(&mut self, defs: &Vec<Def<String>>) -> (r: Result<Vec<Def<u32>>, ()>)
        requires
            old(self).wf(),
            old(self).view().len() + defs_new_names(defs@) + defs@.len() + 1 < u32::MAX,
            forall|i: int| 0 <= i < defs@.len() ==> def_names_ok(*old(self), #[trigger] defs@[i]),
        ensures
            final(self).wf(),
            old(self).view().is_prefix_of(final(self).view()),
            r matches Ok(out) ==> out@.len() == defs@.len() && forall|i: int|
                0 <= i < defs@.len() ==> def_interned(*final(self), #[trigger] defs@[i], out@[i]),
    {
        let mut out: Vec<Def<u32>> = Vec::new();
        let mut k: usize = 0;
        while k < defs.len()
            invariant
                self.wf(),
                out@.len() == k as int,
                old(self).view().is_prefix_of(self.view()),
                self.view().len() <= old(self).view().len() + defs_new_names_upto(defs@, k as int)
                    + k,
                old(self).view().len() + defs_new_names(defs@) + defs@.len() + 1 < u32::MAX,
                forall|i: int| 0 <= i < defs@.len() ==> def_names_ok(*old(self), #[trigger] defs@[i]),
                k <= defs@.len(),
                forall|i: int|
                    0 <= i < k ==> def_interned(*self, #[trigger] defs@[i], out@[i]),
            decreases defs@.len() - k,
        {
            proof {
                lemma_defs_new_names_upto(defs@, k as int);
                lemma_names_ok_grows_def(*old(self), *self, defs@[k as int]);
            }
            let ghost prev = *self;
            match self.intern_def(&defs[k]) {
                Ok(dv) => {
                    out.push(dv);
                    proof {
                        assert forall|i: int| 0 <= i < k implies def_interned(
                            *self,
                            #[trigger] defs@[i],
                            out@[i],
                        ) by {
                            lemma_def_interned_mono(prev, *self, defs@[i], out@[i]);
                        }
                    }
                },
                Err(_) => {
                    return Err(());
                },
            }
            k += 1;
        }
        Ok(out)
    }
}

/// The sum of the fresh names the first `k` definitions can intern.
pub open spec fn defs_new_names_upto(defs: Seq<Def<String>>, k: int) -> nat
    decreases k,
{
    if k <= 0 {
        0
    } else {
        defs_new_names_upto(defs, k - 1) + def_new_names(defs[k - 1])
    }
}

/// The sum of the fresh names all the definitions can intern.
pub open spec fn defs_new_names(defs: Seq<Def<String>>) -> nat {
    defs_new_names_upto(defs, defs.len() as int)
}

/// Each prefix sum is bounded by the whole sum.
proof fn lemma_defs_new_names_upto(defs: Seq<Def<String>>, k: int)
    requires
        0 <= k < defs.len(),
    ensures
        defs_new_names_upto(defs, k) + def_new_names(defs[k]) <= defs_new_names(defs),
    decreases defs.len() - k,
{
    if k + 1 == defs.len() {
    } else {
        lemma_defs_new_names_upto(defs, k + 1);
    }
}

/// Name checks are monotone: a grown table passes every check the old one
/// passed.
proof fn lemma_names_ok_grows_ty(a: Symtab, b: Symtab, ty: Ty<String>)
    requires
        a.view().is_prefix_of(b.view()),
        ty_names_ok(a, ty),
    ensures
        ty_names_ok(b, ty),
    decreases ty,
{
    match ty {
        Ty::Enum(e) => {
            lemma_contains_grows(a, b, e@);
        },
        Ty::Struct(s) => {
            lemma_contains_grows(a, b, s@);
        },
        Ty::Union(u) => {
            lemma_contains_grows(a, b, u@);
        },
        Ty::Vector(t) => {
            lemma_names_ok_grows_ty(a, b, *t);
        },
        Ty::List(t) => {
            lemma_names_ok_grows_ty(a, b, *t);
        },
        Ty::Ref(t) => {
            lemma_names_ok_grows_ty(a, b, *t);
        },
        _ => {},
    }
}

/// Membership is monotone under table growth.
proof fn lemma_contains_grows(a: Symtab, b: Symtab, name: Seq<char>)
    requires
        a.view().is_prefix_of(b.view()),
        a.contains(name),
    ensures
        b.contains(name),
{
    let i = choose|i: int| 0 <= i < a.view().len() && a.view()[i] == name;
    assert(b.view()[i] == name);
}

/// See [`lemma_names_ok_grows_ty`], for locations.
proof fn lemma_names_ok_grows_loc(a: Symtab, b: Symtab, loc: Loc<String>)
    requires
        a.view().is_prefix_of(b.view()),
        loc_names_ok(a, loc),
    ensures
        loc_names_ok(b, loc),
    decreases loc,
{
    match loc {
        Loc::Id(v) => {
            lemma_contains_grows(a, b, v@);
        },
        Loc::Field(l, f) => {
            lemma_names_ok_grows_loc(a, b, *l);
            lemma_contains_grows(a, b, f@);
        },
        Loc::Addr(l) => {
            lemma_names_ok_grows_loc(a, b, *l);
        },
    }
}

/// See [`lemma_names_ok_grows_ty`], for expressions.
proof fn lemma_names_ok_grows_exp(a: Symtab, b: Symtab, exp: Exp<String>)
    requires
        a.view().is_prefix_of(b.view()),
        exp_names_ok(a, exp),
    ensures
        exp_names_ok(b, exp),
    decreases exp,
{
    match exp {
        Exp::Id(v) => {
            lemma_contains_grows(a, b, v@);
        },
        Exp::Ref(v) => {
            lemma_contains_grows(a, b, v@);
        },
        Exp::Struct(s, fields) => {
            lemma_contains_grows(a, b, s@);
            assert forall|i: int|
                0 <= i < fields@.len() implies b.contains((#[trigger] fields@[i]).0@)
                && exp_names_ok(b, fields@[i].1) by {
                assert(decreases_to!(exp => exp->Struct_1));
                assert(decreases_to!(exp->Struct_1 => exp->Struct_1@));
                assert(decreases_to!(exp->Struct_1@ => exp->Struct_1@[i]));
                lemma_contains_grows(a, b, fields@[i].0@);
                lemma_names_ok_grows_exp(a, b, fields@[i].1);
            }
        },
        Exp::Kind(c, e) => {
            lemma_contains_grows(a, b, c@);
            lemma_names_ok_grows_exp(a, b, *e);
        },
        Exp::Unwrap(c, e) => {
            lemma_contains_grows(a, b, c@);
            lemma_names_ok_grows_exp(a, b, *e);
        },
        Exp::Field(e, f) => {
            lemma_names_ok_grows_exp(a, b, *e);
            lemma_contains_grows(a, b, f@);
        },
        Exp::Call(_, args) => {
            assert forall|i: int|
                0 <= i < args@.len() implies exp_names_ok(b, #[trigger] args@[i]) by {
                assert(decreases_to!(exp => exp->Call_1));
                assert(decreases_to!(exp->Call_1 => exp->Call_1@));
                assert(decreases_to!(exp->Call_1@ => exp->Call_1@[i]));
                lemma_names_ok_grows_exp(a, b, args@[i]);
            }
        },
        _ => {},
    }
}

/// See [`lemma_names_ok_grows_ty`], for instructions.
proof fn lemma_names_ok_grows_instr(a: Symtab, b: Symtab, instr: Instr<String>)
    requires
        a.view().is_prefix_of(b.view()),
        instr_names_ok(a, instr),
    ensures
        instr_names_ok(b, instr),
{
    match instr {
        Instr::Decl(_, ty) => {
            lemma_names_ok_grows_ty(a, b, ty);
        },
        Instr::Init(_, ty, exp) => {
            lemma_names_ok_grows_ty(a, b, ty);
            lemma_names_ok_grows_exp(a, b, exp);
        },
        Instr::Jump(exp, _) => {
            lemma_names_ok_grows_exp(a, b, exp);
        },
        Instr::Copy(loc, exp) => {
            lemma_names_ok_grows_loc(a, b, loc);
            lemma_names_ok_grows_exp(a, b, exp);
        },
        Instr::Call(loc, _, f, args) => {
            lemma_names_ok_grows_loc(a, b, loc);
            lemma_contains_grows(a, b, f@);
            assert forall|i: int|
                0 <= i < args@.len() implies exp_names_ok(b, #[trigger] args@[i]) by {
                lemma_names_ok_grows_exp(a, b, args@[i]);
            }
        },
        _ => {},
    }
}

/// See [`lemma_names_ok_grows_ty`], for definitions.
proof fn lemma_names_ok_grows_def(a: Symtab, b: Symtab, def: Def<String>)
    requires
        a.view().is_prefix_of(b.view()),
        def_names_ok(a, def),
    ensures
        def_names_ok(b, def),
{
    match def {
        Def::Register(_, ty) => {
            lemma_names_ok_grows_ty(a, b, ty);
        },
        Def::Let(bindings, setup) => {
            assert forall|i: int|
                0 <= i < bindings@.len() implies ty_names_ok(
                b,
                (#[trigger] bindings@[i]).1,
            ) by {
                lemma_names_ok_grows_ty(a, b, bindings@[i].1);
            }
            assert forall|i: int|
                0 <= i < setup@.len() implies instr_names_ok(b, #[trigger] setup@[i]) by {
                lemma_names_ok_grows_instr(a, b, setup@[i]);
            }
        },
        Def::Enum(_, _) => {},
        Def::Struct(_, fields) => {
            assert forall|i: int|
                0 <= i < fields@.len() implies ty_names_ok(b, (#[trigger] fields@[i]).1) by {
                lemma_names_ok_grows_ty(a, b, fields@[i].1);
            }
        },
        Def::Union(_, ctors) => {
            assert forall|i: int|
                0 <= i < ctors@.len() implies ty_names_ok(b, (#[trigger] ctors@[i]).1) by {
                lemma_names_ok_grows_ty(a, b, ctors@[i].1);
            }
        },
        Def::Val(_, args, ret) => {
            assert forall|i: int|
                0 <= i < args@.len() implies ty_names_ok(b, #[trigger] args@[i]) by {
                lemma_names_ok_grows_ty(a, b, args@[i]);
            }
            lemma_names_ok_grows_ty(a, b, ret);
        },
        Def::Fn(f, _, body) => {
            lemma_contains_grows(a, b, f@);
            assert forall|i: int|
                0 <= i < body@.len() implies instr_names_ok(b, #[trigger] body@[i]) by {
                lemma_names_ok_grows_instr(a, b, body@[i]);
            }
        },
    }
}

/// Whether every function definition has an earlier value declaration of
/// the same name with one declared type per argument.
pub open spec fn fns_have_vals(defs: Seq<Def<u32>>) -> bool {
    forall|i: int|
        0 <= i < defs.len() ==> ((#[trigger] defs[i]) matches Def::Fn(f, args, _)
            ==> exists|j: int|
            0 <= j < i && ((#[trigger] defs[j]) matches Def::Val(g, tys, _) && g == f
                && tys@.len() == args@.len()))
}

/// The post-interning shared state: the definitions with every call
/// resolved, the symbol table, the primop names and the index of function
/// definitions by name. It is immutable after construction and answers
/// function and primop lookups by search.
pub struct SharedState {
    /// The interned definitions.
    pub defs: Vec<Def<u32>>,
    /// The symbol table.
    pub symtab: Symtab,
    /// The primop names: declared and never defined.
    pub primops: Vec<u32>,
    /// Each function definition's name and its position among the
    /// definitions.
    pub functions: Vec<(u32, usize)>,
}

impl SharedState {
    /// Package the interned program: the symbol table, the definitions and
    /// the primop set, and index the function definitions. Every function
    /// must have a signature of the same arity.
    #[verifier::loop_isolation(false)]
    pub fn new(symtab: Symtab, defs: Vec<Def<u32>>, primops: Vec<u32>) -> (r: SharedState)
        requires
            fns_have_vals(defs@),
        ensures
            r.defs == defs,
            r.symtab == symtab,
            r.primops == primops,
            forall|i: int|
                0 <= i < r.functions@.len() ==> ((#[trigger] r.functions@[i]).1 < defs@.len()
                    && defines_fn(defs@[r.functions@[i].1 as int], r.functions@[i].0)),
            forall|d: int|
                0 <= d < defs@.len() && (#[trigger] defs@[d]) is Fn ==> exists|i: int|
                    0 <= i < r.functions@.len() && #[trigger] r.functions@[i] == (
                    defs@[d]->Fn_0,
                    d as usize,
                ),
    {
        let mut functions: Vec<(u32, usize)> = Vec::new();
        let mut k: usize = 0;
        while k < defs.len()
            invariant
                k <= defs@.len(),
                forall|i: int|
                    0 <= i < functions@.len() ==> ((#[trigger] functions@[i]).1 < defs@.len()
                        && defines_fn(defs@[functions@[i].1 as int], functions@[i].0)),
                forall|d: int|
                    0 <= d < k && (#[trigger] defs@[d]) is Fn ==> exists|i: int|
                        0 <= i < functions@.len() && #[trigger] functions@[i] == (
                        defs@[d]->Fn_0,
                        d as usize,
                    ),
            decreases defs@.len() - k,
        {
            match &defs[k] {
                Def::Fn(f, _, _) => {
                    let ghost before = functions@;
                    functions.push((*f, k));
                    proof {
                        assert(functions@[functions@.len() - 1] == (defs@[k as int]->Fn_0, k));
                        assert(defines_fn(defs@[k as int], *f));
                        assert forall|d: int|
                            0 <= d < k && (#[trigger] defs@[d]) is Fn implies exists|i: int|
                            0 <= i < functions@.len() && #[trigger] functions@[i] == (
                            defs@[d]->Fn_0,
                            d as usize,
                        ) by {
                            let i0 = choose|i: int|
                                0 <= i < before.len() && #[trigger] before[i] == (
                                defs@[d]->Fn_0,
                                d as usize,
                            );
                            assert(functions@[i0] == before[i0]);
                        }
                    }
                },
                _ => {},
            }
            k += 1;
        }
        SharedState { defs, symtab, primops, functions }
    }

    /// The position of the first function definition with the given name,
    /// if there is one.
    #[verifier::loop_isolation(false)]
    pub fn get_function(&self, f: u32) -> (r: Option<usize>)
        requires
            forall|i: int|
                0 <= i < self.functions@.len() ==> ((#[trigger] self.functions@[i]).1
                    < self.defs@.len() && defines_fn(
                    self.defs@[self.functions@[i].1 as int],
                    self.functions@[i].0,
                )),
        ensures
            r matches Some(d) ==> d < self.defs@.len() && defines_fn(self.defs@[d as int], f),
            r is None ==> forall|i: int|
                0 <= i < self.functions@.len() ==> (#[trigger] self.functions@[i]).0 != f,
    {
        let mut k: usize = 0;
        while k < self.functions.len()
            invariant
                k <= self.functions@.len(),
                forall|i: int| 0 <= i < k ==> (#[trigger] self.functions@[i]).0 != f,
            decreases self.functions@.len() - k,
        {
            if self.functions[k].0 == f {
                return Some(self.functions[k].1);
            }
            k += 1;
        }
        None
    }

    /// Whether a name is a primop.
    pub fn is_primop(&self, f: u32) -> (r: bool)
        ensures
            r == self.primops@.contains(f),
    {
        contains_name(&self.primops, f)
    }

    /// Whether a name has a function definition.
    pub fn has_function(&self, f: u32) -> (r: bool)
        ensures
            r == has_fn(self.defs@, f),
    {
        defs_define_fn(&self.defs, f)
    }
}

} // verus!
