//! The litmus-test front end: parsing the declarative test description,
//! assigning symbolic addresses, preparing assembler input and linker
//! scripts, extracting the per-thread bytes from the assembled object, and
//! parsing the final-state assertion.
//!
//! Invoking the assembler and linker is process work that the embedding
//! program does; everything around those two invocations lives here.

use vstd::prelude::*;
use crate::ast::Symtab;
use crate::bitvector::Sbits;
use crate::config::ISAConfig;
use crate::sexp::{Sexp, parse_sexp, AbsSexp, sexp_ascii, sexp_view, sexps_view, spec_is_fn, spec_sexp_u64, lemma_sexps_view_len, lemma_sexps_view_index};
use crate::strings::{hex_string_u64, hex_digits_u128};
use crate::toml_model::{TomlValue, AbsToml, toml_get, toml_as_str, table_first, toml_of};
use crate::zencode;
use vstd::string::StringSliceAdditionalSpecFns;

verus! {

/// A location a final-state assertion can constrain: a register of a
/// thread, or the last write to a symbolic address.
#[derive(Debug)]
pub enum Loc {
    /// A register of a thread, by interned register name.
    Register { reg: u32, thread_id: usize },
    /// The last write to a named symbolic address.
    LastWriteTo(String),
}

/// A final-state assertion: a boolean tree over location equalities.
#[derive(Debug)]
pub enum Prop {
    /// A location holds a bit-vector constant.
    EqLoc(Loc, Sbits),
    /// All the operands hold.
    And(Vec<Prop>),
    /// Some operand holds.
    Or(Vec<Prop>),
    /// The operand does not hold; exactly one operand.
    Not(Box<Prop>),
    /// The first operand implies the second; exactly two operands.
    Implies(Box<Prop>, Box<Prop>),
}


/// The abstract view of an assertion location.
#[verifier::ext_equal]
pub enum AbsLoc {
    Register { reg: u32, thread_id: usize },
    LastWriteTo(Seq<char>),
}

/// The abstract view of a final-state assertion; a constrained bit vector
/// appears as its value and width.
#[verifier::ext_equal]
pub enum AbsProp {
    EqLoc(AbsLoc, u64, u32),
    And(Seq<AbsProp>),
    Or(Seq<AbsProp>),
    Not(Box<AbsProp>),
    Implies(Box<AbsProp>, Box<AbsProp>),
}

/// The abstract view of a location.
pub open spec fn loc_view(l: Loc) -> AbsLoc {
    match l {
        Loc::Register { reg, thread_id } => AbsLoc::Register { reg, thread_id },
        Loc::LastWriteTo(name) => AbsLoc::LastWriteTo(name@),
    }
}

impl View for Loc {
    type V = AbsLoc;

    open spec fn view(&self) -> AbsLoc {
        loc_view(*self)
    }
}

/// The abstract view of an assertion.
pub open spec fn prop_view(p: Prop) -> AbsProp
    decreases p,
    via prop_view_decreases
{
    match p {
        Prop::EqLoc(l, b) => AbsProp::EqLoc(loc_view(l), b.value(), b.width()),
        Prop::And(ps) => AbsProp::And(props_view(ps@)),
        Prop::Or(ps) => AbsProp::Or(props_view(ps@)),
        Prop::Not(q) => AbsProp::Not(Box::new(prop_view(*q))),
        Prop::Implies(q, w) => AbsProp::Implies(Box::new(prop_view(*q)), Box::new(prop_view(*w))),
    }
}

/// The abstract view of a sequence of assertions.
pub open spec fn props_view(s: Seq<Prop>) -> Seq<AbsProp>
    decreases s,
    via props_view_decreases
{
    if s.len() == 0 {
        Seq::empty()
    } else {
        props_view(s.subrange(0, s.len() - 1)).push(prop_view(s[s.len() - 1]))
    }
}

#[via_fn]
proof fn prop_view_decreases(p: Prop) {
    match p {
        Prop::And(ps) => {
            assert(decreases_to!(p => p->And_0));
            assert(decreases_to!(p->And_0 => p->And_0@));
        },
        Prop::Or(ps) => {
            assert(decreases_to!(p => p->Or_0));
            assert(decreases_to!(p->Or_0 => p->Or_0@));
        },
        _ => {},
    }
}

#[via_fn]
proof fn props_view_decreases(s: Seq<Prop>) {
    if s.len() > 0 {
        vstd::seq::axiom_seq_len_decreases(s, s.subrange(0, s.len() - 1));
        assert(decreases_to!(s => s[s.len() - 1]));
    }
}

impl View for Prop {
    type V = AbsProp;

    open spec fn view(&self) -> AbsProp {
        prop_view(*self)
    }
}




/// The view of a sequence of assertions has the same length, element by
/// element.
pub broadcast proof fn lemma_props_view_len(s: Seq<Prop>)
    ensures
        (#[trigger] props_view(s)).len() == s.len(),
    decreases s,
{
    if s.len() > 0 {
        lemma_props_view_len(s.subrange(0, s.len() - 1));
    }
}

/// Each element of the view is the view of the element.
pub broadcast proof fn lemma_props_view_index(s: Seq<Prop>, i: int)
    requires
        0 <= i < s.len(),
    ensures
        #[trigger] props_view(s)[i] == prop_view(s[i]),
    decreases s,
{
    lemma_props_view_len(s.subrange(0, s.len() - 1));
    if i < s.len() - 1 {
        lemma_props_view_index(s.subrange(0, s.len() - 1), i);
    }
}

/// The bytes of ASCII text, character by character.
pub open spec fn ascii_bytes(s: Seq<char>) -> Seq<u8> {
    Seq::new(s.len(), |i: int| s[i] as u8)
}

/// The register an assertion name denotes: the first matching entry of the
/// configuration's rename table, else the z-encoded name looked up in the
/// symbol table.
pub open spec fn spec_resolve_reg(
    renames: Seq<(String, u32)>,
    tab: Seq<Seq<char>>,
    name: Seq<char>,
) -> Option<u32> {
    match crate::config::renames_first(renames, name) {
        Some(r) => Some(r),
        None => {
            let enc = zencode::spec_encode(ascii_bytes(name));
            if exists|i: int| 0 <= i < tab.len() && tab[i] == enc {
                Some((choose|i: int| 0 <= i < tab.len() && tab[i] == enc) as u32)
            } else {
                None
            }
        },
    }
}

/// The parse of a location S-expression: a list `(register <name>
/// <thread>)` whose name resolves to a register and whose thread is a
/// numeral that fits a size.
pub open spec fn spec_loc_of(
    s: AbsSexp,
    renames: Seq<(String, u32)>,
    tab: Seq<Seq<char>>,
) -> Option<AbsLoc> {
    if s matches AbsSexp::List(items) && spec_is_fn(s, "register"@, 2) && items.len() == 3 {
        let items = s->List_0;
        match items[1] {
            AbsSexp::Atom(name) => match spec_resolve_reg(renames, tab, name) {
                Some(reg) => match spec_sexp_u64(items[2]) {
                    Some(t) => if t <= usize::MAX as u64 {
                        Some(AbsLoc::Register { reg, thread_id: t as usize })
                    } else {
                        None
                    },
                    None => None,
                },
                None => None,
            },
            AbsSexp::List(_) => None,
        }
    } else {
        None
    }
}

/// The parse of an assertion S-expression: location equalities under
/// conjunction, disjunction, negation and implication; any other shape is
/// rejected.
pub open spec fn spec_prop_of(
    s: AbsSexp,
    renames: Seq<(String, u32)>,
    tab: Seq<Seq<char>>,
) -> Option<AbsProp>
    decreases s, 1int,
    via spec_prop_of_decreases
{
    match s {
        AbsSexp::List(items) => {
            if spec_is_fn(s, "="@, 2) && items.len() == 3 {
                match spec_loc_of(items[1], renames, tab) {
                    Some(l) => match spec_sexp_u64(items[2]) {
                        Some(v) => Some(AbsProp::EqLoc(l, v, 64)),
                        None => None,
                    },
                    None => None,
                }
            } else if spec_is_fn(s, "and"@, 1) {
                match spec_props_of(items, 1, renames, tab) {
                    Some(ps) => Some(AbsProp::And(ps)),
                    None => None,
                }
            } else if spec_is_fn(s, "or"@, 1) {
                match spec_props_of(items, 1, renames, tab) {
                    Some(ps) => Some(AbsProp::Or(ps)),
                    None => None,
                }
            } else if spec_is_fn(s, "=>"@, 2) && items.len() == 3 {
                match spec_prop_of(items[1], renames, tab) {
                    Some(p) => match spec_prop_of(items[2], renames, tab) {
                        Some(q) => Some(AbsProp::Implies(Box::new(p), Box::new(q))),
                        None => None,
                    },
                    None => None,
                }
            } else if spec_is_fn(s, "not"@, 1) && items.len() == 2 {
                match spec_prop_of(items[1], renames, tab) {
                    Some(p) => Some(AbsProp::Not(Box::new(p))),
                    None => None,
                }
            } else {
                None
            }
        },
        AbsSexp::Atom(_) => None,
    }
}

/// The parse of the operands of a conjunction or disjunction, from an
/// index on.
pub open spec fn spec_props_of(
    items: Seq<AbsSexp>,
    k: int,
    renames: Seq<(String, u32)>,
    tab: Seq<Seq<char>>,
) -> Option<Seq<AbsProp>>
    decreases items, items.len() - k, 0int,
    via spec_props_of_decreases
{
    if k < 0 || k >= items.len() {
        Some(Seq::empty())
    } else {
        match spec_prop_of(items[k], renames, tab) {
            Some(p) => match spec_props_of(items, k + 1, renames, tab) {
                Some(rest) => Some(seq![p] + rest),
                None => None,
            },
            None => None,
        }
    }
}

#[via_fn]
proof fn spec_prop_of_decreases(s: AbsSexp, renames: Seq<(String, u32)>, tab: Seq<Seq<char>>) {
    match s {
        AbsSexp::List(items) => {
            assert(decreases_to!(s => s->List_0));
            if items.len() == 3 {
                assert(decreases_to!(s->List_0 => s->List_0[1]));
                assert(decreases_to!(s->List_0 => s->List_0[2]));
            }
        },
        _ => {},
    }
}

#[via_fn]
proof fn spec_props_of_decreases(
    items: Seq<AbsSexp>,
    k: int,
    renames: Seq<(String, u32)>,
    tab: Seq<Seq<char>>,
) {
    if 0 <= k < items.len() {
        assert(decreases_to!(items => items[k]));
    }
}

/// The view of a parsed location.
pub open spec fn opt_loc_view(r: Option<Loc>) -> Option<AbsLoc> {
    match r {
        Some(l) => Some(loc_view(l)),
        None => None,
    }
}

/// The view of a parsed assertion.
pub open spec fn opt_prop_view(r: Option<Prop>) -> Option<AbsProp> {
    match r {
        Some(p) => Some(prop_view(p)),
        None => None,
    }
}

impl Loc {
    /// Read a location from an S-expression of the form
    /// `(register <name> <thread>)`, mapping the register name through the
    /// configuration's rename table and then the symbol table.
    pub fn from_sexp(sexp: &Sexp, symtab: &Symtab, isa: &ISAConfig) -> (r: Option<Loc>)
        requires
            symtab.wf(),
        ensures
            r matches Some(l) ==> (l is Register && sexp is List),
            sexp is Atom ==> r is None,
            sexp_ascii(sexp@) ==> opt_loc_view(r) == spec_loc_of(
                sexp@,
                isa.register_renames@,
                symtab@,
            ),
    {
        match sexp {
            Sexp::List(items) => {
                proof {
                    lemma_sexps_view_len(items@);
                    if items@.len() >= 3 {
                        lemma_sexps_view_index(items@, 1);
                        lemma_sexps_view_index(items@, 2);
                    }
                }
                if sexp.is_fn("register", 2) && items.len() == 3 {
                    let reg_name = match items[1].as_str() {
                        Some(s) => s,
                        None => {
                            return None;
                        },
                    };
                    let reg = match isa.rename_lookup(reg_name) {
                        Some(reg) => reg,
                        None => {
                            let rn = reg_name.as_str();
                            let encoded = zencode::encode(rn);
                            proof {
                                if sexp_ascii(sexp@) {
                                    assert(sexps_view(items@)[1] == sexp_view(items@[1]));
                                    assert(sexp_view(items@[1]) == AbsSexp::Atom(reg_name@));
                                    assert(sexp_ascii(AbsSexp::Atom(reg_name@)));
                                    assert(vstd::utf8::is_ascii_chars(rn@));
                                    assert(vstd::string::is_ascii(rn));
                                    vstd::string::is_ascii_spec_bytes(rn);
                                    assert(rn.spec_bytes() =~= ascii_bytes(reg_name@));
                                }
                            }
                            match symtab.get(encoded.as_str()) {
                                Some(reg) => {
                                    proof {
                                        if sexp_ascii(sexp@) {
                                            let enc = zencode::spec_encode(ascii_bytes(reg_name@));
                                            assert(symtab@[reg as int] == enc);
                                            let w = choose|i: int|
                                                0 <= i < symtab@.len() && symtab@[i] == enc;
                                            assert(symtab@[w] == symtab@[reg as int]);
                                            assert(w == reg as int);
                                        }
                                    }
                                    reg
                                },
                                None => {
                                    return None;
                                },
                            }
                        },
                    };
                    let thread_id = match items[2].as_usize() {
                        Some(t) => t,
                        None => {
                            return None;
                        },
                    };
                    Some(Loc::Register { reg, thread_id })
                } else {
                    None
                }
            },
            _ => None,
        }
    }
}

impl Prop {
    /// Read an assertion from an S-expression: equalities over locations
    /// under conjunction, disjunction, negation and implication. Any other
    /// shape is rejected.
    pub fn from_sexp(sexp: &Sexp, symtab: &Symtab, isa: &ISAConfig) -> (r: Option<Prop>)
        requires
            symtab.wf(),
        ensures
            sexp is Atom ==> r is None,
            sexp_ascii(sexp@) ==> opt_prop_view(r) == spec_prop_of(
                sexp@,
                isa.register_renames@,
                symtab@,
            ),
        decreases *sexp, 1int,
    {
        match sexp {
            Sexp::List(items) => {
                proof {
                    lemma_sexps_view_len(items@);
                    assert forall|i: int| 0 <= i < items@.len() implies sexps_view(items@)[i]
                        == sexp_view(#[trigger] items@[i]) by {
                        lemma_sexps_view_index(items@, i);
                    }
                }
                if sexp.is_fn("=", 2) && items.len() == 3 {
                    proof {
                        if sexp_ascii(sexp@) {
                            assert(sexp_ascii(sexps_view(items@)[1]));
                            assert(sexp_ascii(sexps_view(items@)[2]));
                        }
                    }
                    let loc = match Loc::from_sexp(&items[1], symtab, isa) {
                        Some(l) => l,
                        None => {
                            return None;
                        },
                    };
                    let bits = match items[2].as_u64() {
                        Some(v) => Sbits::from_u64(v),
                        None => {
                            return None;
                        },
                    };
                    proof {
                        if sexp_ascii(sexp@) {
                            assert(sexp_ascii(sexps_view(items@)[1]));
                        }
                    }
                    Some(Prop::EqLoc(loc, bits))
                } else if sexp.is_fn("and", 1) {
                    match Prop::props_from_sexps(sexp, items, symtab, isa) {
                        Some(props) => Some(Prop::And(props)),
                        None => None,
                    }
                } else if sexp.is_fn("or", 1) {
                    match Prop::props_from_sexps(sexp, items, symtab, isa) {
                        Some(props) => Some(Prop::Or(props)),
                        None => None,
                    }
                } else if sexp.is_fn("=>", 2) && items.len() == 3 {
                    proof {
                        if sexp_ascii(sexp@) {
                            assert(sexp_ascii(sexps_view(items@)[1]));
                            assert(sexp_ascii(sexps_view(items@)[2]));
                        }
                        let e = *sexp;
                        assert(decreases_to!(e => e->List_0));
                        assert(decreases_to!(e->List_0 => e->List_0@));
                        assert(decreases_to!(e->List_0@ => e->List_0@[1]));
                        assert(decreases_to!(e->List_0@ => e->List_0@[2]));
                    }
                    let p = match Prop::from_sexp(&items[1], symtab, isa) {
                        Some(p) => p,
                        None => {
                            return None;
                        },
                    };
                    let q = match Prop::from_sexp(&items[2], symtab, isa) {
                        Some(q) => q,
                        None => {
                            return None;
                        },
                    };
                    Some(Prop::Implies(Box::new(p), Box::new(q)))
                } else if sexp.is_fn("not", 1) && items.len() == 2 {
                    proof {
                        if sexp_ascii(sexp@) {
                            assert(sexp_ascii(sexps_view(items@)[1]));
                        }
                        let e = *sexp;
                        assert(decreases_to!(e => e->List_0));
                        assert(decreases_to!(e->List_0 => e->List_0@));
                        assert(decreases_to!(e->List_0@ => e->List_0@[1]));
                    }
                    match Prop::from_sexp(&items[1], symtab, isa) {
                        Some(p) => Some(Prop::Not(Box::new(p))),
                        None => None,
                    }
                } else {
                    None
                }
            },
            _ => None,
        }
    }

    /// Read the operands of a conjunction or disjunction, skipping the
    /// operator atom.
    #[verifier::loop_isolation(false)]
    fn props_from_sexps(parent: &Sexp, items: &Vec<Sexp>, symtab: &Symtab, isa: &ISAConfig) -> (r:
        Option<Vec<Prop>>)
        requires
            symtab.wf(),
            *parent matches Sexp::List(its) && its == *items,
            items@.len() >= 1,
        ensures
            sexp_ascii(sexp_view(*parent)) ==> match r {
                Some(ps) => spec_props_of(sexps_view(items@), 1, isa.register_renames@, symtab@)
                    == Some(props_view(ps@)),
                None => spec_props_of(sexps_view(items@), 1, isa.register_renames@, symtab@)
                    is None,
            },
        decreases *parent, 0int,
    {
        proof {
            lemma_sexps_view_len(items@);
            assert forall|i: int| 0 <= i < items@.len() implies sexps_view(items@)[i]
                == sexp_view(#[trigger] items@[i]) by {
                lemma_sexps_view_index(items@, i);
            }
        }
        let ghost iv = sexps_view(items@);
        let ghost renames = isa.register_renames@;
        let ghost tab = symtab@;
        let mut out: Vec<Prop> = Vec::new();
        let mut k: usize = 1;
        if items.len() == 0 {
            return None;
        }
        while k < items.len()
            invariant
                symtab.wf(),
                *parent matches Sexp::List(its) && its == *items,
                1 <= k <= items@.len(),
                iv == sexps_view(items@),
                renames == isa.register_renames@,
                tab == symtab@,
                out@.len() == k - 1,
                sexp_ascii(sexp_view(*parent)) ==> spec_props_of(iv, 1, renames, tab) == (
                match spec_props_of(iv, k as int, renames, tab) {
                    Some(rest) => Some(props_view(out@) + rest),
                    None => None::<Seq<AbsProp>>,
                }),
            decreases items@.len() - k,
        {
            proof {
                let e = *parent;
                assert(decreases_to!(e => e->List_0));
                assert(decreases_to!(e->List_0 => e->List_0@));
                assert(decreases_to!(e->List_0@ => e->List_0@[k as int]));
                assert(sexp_view(*parent) == AbsSexp::List(iv));
                if sexp_ascii(sexp_view(*parent)) {
                    assert(sexp_ascii(AbsSexp::List(iv)));
                    assert(sexp_ascii(iv[k as int]));
                }
            }
            match Prop::from_sexp(&items[k], symtab, isa) {
                Some(p) => {
                    let ghost before = out@;
                    out.push(p);
                    proof {
                        assert(out@.subrange(0, out@.len() - 1) =~= before);
                        assert(out@[out@.len() - 1] == p);
                        assert(props_view(out@) == props_view(before).push(prop_view(p)));
                        if sexp_ascii(sexp_view(*parent)) {
                            assert(spec_prop_of(iv[k as int], renames, tab) == Some(prop_view(p)));
                            match spec_props_of(iv, k as int + 1, renames, tab) {
                                Some(rest) => {
                                    assert(spec_props_of(iv, k as int, renames, tab) == Some(
                                        seq![prop_view(p)] + rest,
                                    ));
                                    assert(props_view(before) + (seq![prop_view(p)] + rest)
                                        =~= props_view(out@) + rest);
                                },
                                None => {},
                            }
                        }
                    }
                },
                None => {
                    proof {
                        if sexp_ascii(sexp_view(*parent)) {
                            assert(spec_props_of(iv, k as int, renames, tab) is None);
                        }
                    }
                    return None;
                },
            }
            k += 1;
        }
        proof {
            if sexp_ascii(sexp_view(*parent)) {
                assert(spec_props_of(iv, k as int, renames, tab) == Some(Seq::<AbsProp>::empty()));
                assert(props_view(out@) + Seq::<AbsProp>::empty() =~= props_view(out@));
            }
        }
        Some(out)
    }
}

/// Parse a final-state assertion's S-expression text.
pub fn parse_assertion(assertion: &str) -> (r: Result<Sexp, String>)
    ensures
        r matches Ok(s) ==> sexp_ascii(s@),
        r matches Err(e) ==> e@ == "Could not parse final state in litmus file"@,
{
    match parse_sexp(assertion) {
        Some(sexp) => Ok(sexp),
        None => Err("Could not parse final state in litmus file".to_owned()),
    }
}

/// The symbolic-address assignment: the names in declaration order, each
/// at the base plus its index times the stride.
pub open spec fn symbolic_addr_at(base: u64, stride: u64, i: int) -> int {
    base + i * stride
}

/// Assign addresses to the symbolic names: name `i` lives at
/// `base + i * stride`.
#[verifier::loop_isolation(false)]
pub fn assign_symbolic_addrs(names: Vec<String>, base: u64, stride: u64) -> (r: Vec<(
    String,
    u64,
)>)
    requires
        base + names@.len() * stride <= u64::MAX,
    ensures
        r@.len() == names@.len(),
        forall|i: int|
            0 <= i < names@.len() ==> (#[trigger] r@[i]).0@ == names@[i]@ && r@[i].1
                == symbolic_addr_at(base, stride, i),
{
    let mut out: Vec<(String, u64)> = Vec::new();
    let mut addr: u64 = base;
    let mut k: usize = 0;
    let n = names.len();
    let mut names = names;
    let ghost names0 = names@;
    while k < n
        invariant
            k <= n,
            n == names0.len(),
            names@ == names0.subrange(k as int, names0.len() as int),
            out@.len() == k as int,
            addr == base + k * stride,
            forall|i: int|
                0 <= i < k ==> (#[trigger] out@[i]).0@ == names0[i]@ && out@[i].1
                    == symbolic_addr_at(base, stride, i),
        decreases n - k,
    {
        proof {
            assert((k + 1) * stride <= names0.len() * stride) by (nonlinear_arith)
                requires
                    k + 1 <= names0.len(),
                    stride >= 0,
            ;
            assert((k + 1) * stride == k * stride + stride) by (nonlinear_arith);
        }
        let name = names.remove(0);
        out.push((name, addr));
        addr = addr + stride;
        k += 1;
        proof {
            assert(names@ =~= names0.subrange(k as int, names0.len() as int));
        }
    }
    out
}

/// The text fed to the assembler: for each thread, a section header naming
/// the thread, then its code.
pub open spec fn assembler_input_text(threads: Seq<(Seq<char>, Seq<char>)>) -> Seq<char>
    decreases threads.len(),
{
    if threads.len() == 0 {
        Seq::empty()
    } else {
        assembler_input_text(threads.drop_last()) + seq!['\t', '.', 's', 'e', 'c', 't', 'i', 'o', 'n', ' ', 'l', 'i', 't', 'm', 'u', 's', '_'] + threads.last().0 + seq!['\n'] + threads.last().1
    }
}

/// Build the assembler's standard input for the threads.
#[verifier::loop_isolation(false)]
pub fn assembler_input(threads: &Vec<(String, String)>) -> (r: String)
    ensures
        r@ == assembler_input_text(threads_text_view(threads@)),
{
    let mut out = String::new();
    let mut k: usize = 0;
    proof {
        lemma_threads_text_view_len(threads@);
        assert(threads_text_view(threads@).subrange(0, 0) =~= Seq::<(Seq<char>, Seq<char>)>::empty());
        assert(out@ =~= assembler_input_text(threads_text_view(threads@).subrange(0, 0)));
    }
    while k < threads.len()
        invariant
            k <= threads@.len(),
            out@ == assembler_input_text(threads_text_view(threads@).subrange(0, k as int)),
        decreases threads@.len() - k,
    {
        let ghost tv = threads_text_view(threads@);
        proof {
            lemma_threads_text_view_index(threads@, k as int);
            assert(tv.subrange(0, k as int + 1).drop_last() =~= tv.subrange(0, k as int));
            assert(tv.subrange(0, k as int + 1).last() == tv[k as int]);
        }
        out.append("\t.section litmus_");
        out.append(threads[k].0.as_str());
        out.append("\n");
        out.append(threads[k].1.as_str());
        proof {
            reveal_strlit("\t.section litmus_");
            reveal_strlit("\n");
            assert("\t.section litmus_"@ =~= seq!['\t', '.', 's', 'e', 'c', 't', 'i', 'o', 'n', ' ', 'l', 'i', 't', 'm', 'u', 's', '_']);
            assert("\n"@ =~= seq!['\n']);
            assert(out@ =~= assembler_input_text(tv.subrange(0, k as int + 1)));
        }
        k += 1;
    }
    proof {
        assert(threads_text_view(threads@).subrange(0, threads@.len() as int) =~= threads_text_view(
            threads@,
        ));
    }
    out
}

/// The views of a thread list's names and code.
pub open spec fn threads_text_view(s: Seq<(String, String)>) -> Seq<(Seq<char>, Seq<char>)> {
    s.map_values(|t: (String, String)| (t.0@, t.1@))
}

/// The view list has the same length.
proof fn lemma_threads_text_view_len(s: Seq<(String, String)>)
    ensures
        threads_text_view(s).len() == s.len(),
{
}

/// Each view entry is the view of the entry.
proof fn lemma_threads_text_view_index(s: Seq<(String, String)>, i: int)
    requires
        0 <= i < s.len(),
    ensures
        threads_text_view(s)[i] == (s[i].0@, s[i].1@),
{
}

/// The linker script that places each thread's section at the thread base
/// plus its index times the thread stride.
pub open spec fn linker_script_text(names: Seq<Seq<char>>, base: u64, stride: u64) -> Seq<char>
    decreases names.len(),
{
    if names.len() == 0 {
        "start = 0;\nSECTIONS\n{\n"@
    } else {
        linker_script_text(names.drop_last(), base, stride) + "  . = 0x"@ + hex_digits_u128(
            (base + (names.len() - 1) * stride) as u128,
        ) + ";\n  litmus_"@ + names.last() + " : { *(litmus_"@ + names.last() + ") }\n"@
    }
}

/// Generate the linker script for the threads.
#[verifier::loop_isolation(false)]
pub fn generate_linker_script(threads: &Vec<(String, String)>, isa: &ISAConfig) -> (r: String)
    requires
        isa.thread_base + threads@.len() * isa.thread_stride <= u64::MAX,
    ensures
        r@ == linker_script_text(
            thread_names_view(threads@),
            isa.thread_base,
            isa.thread_stride,
        ) + "}\n"@,
{
    let base = isa.thread_base;
    let stride = isa.thread_stride;
    let mut script = String::new();
    script.append("start = 0;\nSECTIONS\n{\n");
    let mut thread_address: u64 = base;
    let mut k: usize = 0;
    proof {
        lemma_thread_names_view(threads@);
        assert(thread_names_view(threads@).subrange(0, 0) =~= Seq::<Seq<char>>::empty());
        assert(script@ =~= linker_script_text(
            thread_names_view(threads@).subrange(0, 0),
            base,
            stride,
        ));
    }
    while k < threads.len()
        invariant
            k <= threads@.len(),
            thread_address == base + k * stride,
            base + threads@.len() * stride <= u64::MAX,
            script@ == linker_script_text(
                thread_names_view(threads@).subrange(0, k as int),
                base,
                stride,
            ),
        decreases threads@.len() - k,
    {
        let ghost nv = thread_names_view(threads@);
        proof {
            assert((k + 1) * stride <= threads@.len() * stride) by (nonlinear_arith)
                requires
                    k + 1 <= threads@.len(),
                    stride >= 0,
            ;
            assert((k + 1) * stride == k * stride + stride) by (nonlinear_arith);
            assert(nv.subrange(0, k as int + 1).drop_last() =~= nv.subrange(0, k as int));
            assert(nv.subrange(0, k as int + 1).last() == nv[k as int]);
            assert(nv[k as int] == threads@[k as int].0@);
        }
        script.append("  . = 0x");
        let hex = hex_string_u64(thread_address);
        script.append(hex.as_str());
        script.append(";\n  litmus_");
        script.append(threads[k].0.as_str());
        script.append(" : { *(litmus_");
        script.append(threads[k].0.as_str());
        script.append(") }\n");
        proof {
            assert(script@ =~= linker_script_text(nv.subrange(0, k as int + 1), base, stride));
        }
        thread_address = thread_address + stride;
        k += 1;
    }
    script.append("}\n");
    proof {
        assert(thread_names_view(threads@).subrange(0, threads@.len() as int)
            =~= thread_names_view(threads@));
    }
    script
}

/// The views of the thread names.
pub open spec fn thread_names_view(s: Seq<(String, String)>) -> Seq<Seq<char>> {
    s.map_values(|t: (String, String)| t.0@)
}

/// The view list mirrors the list.
proof fn lemma_thread_names_view(s: Seq<(String, String)>)
    ensures
        thread_names_view(s).len() == s.len(),
        forall|i: int| 0 <= i < s.len() ==> #[trigger] thread_names_view(s)[i] == s[i].0@,
{
}

/// The sections of an object file: each section's name, file offset and
/// size, in header order; nothing when the bytes are not an ELF object.
/// The result depends on the bytes alone.
pub uninterp spec fn elf_sections_of(buffer: Seq<u8>) -> Option<Seq<(Seq<char>, usize, usize)>>;

/// List the sections of an assembled object.
///
/// Relies on `goblin::Object::parse` and the ELF section iterator: the
/// section headers' names, `sh_offset` and `sh_size` fields, converted to
/// plain values; named by [`elf_sections_of`].
#[verifier::external_body]
fn parse_elf_sections(buffer: &Vec<u8>) -> (r: Option<Vec<(String, usize, usize)>>)
    ensures
        match r {
            Some(v) => elf_sections_of(buffer@) matches Some(s) && s.len() == v@.len() && (forall|
                i: int,
            |
                0 <= i < s.len() ==> (#[trigger] s[i]).0 == v@[i].0@ && s[i].1 == v@[i].1 && s[i].2
                    == v@[i].2),
            None => elf_sections_of(buffer@) is None,
        },
{
    match goblin::Object::parse(buffer.as_slice()) {
        Ok(goblin::Object::Elf(elf)) => {
            let mut out: Vec<(String, usize, usize)> = Vec::new();
            for section in &elf.section_headers {
                if let Some(name) = elf.shdr_strtab.get_at(section.sh_name) {
                    out.push((name.to_string(), section.sh_offset as usize, section.sh_size as usize));
                }
            }
            Some(out)
        },
        _ => None,
    }
}


/// The view of a listed section table.
pub open spec fn sections_view(s: Seq<(String, usize, usize)>) -> Seq<(Seq<char>, usize, usize)> {
    s.map_values(|e: (String, usize, usize)| (e.0@, e.1, e.2))
}

/// The offset and size of the first section with the given name whose
/// extent lies within a buffer of the given length.
pub open spec fn section_first(
    s: Seq<(Seq<char>, usize, usize)>,
    name: Seq<char>,
    blen: int,
) -> Option<(usize, usize)>
    decreases s.len(),
{
    if s.len() == 0 {
        None
    } else if s[0].0 == name && s[0].1 <= blen && s[0].2 <= blen - s[0].1 {
        Some((s[0].1, s[0].2))
    } else {
        section_first(s.drop_first(), name, blen)
    }
}

/// Within a prefix without a usable section, the first match lies in the
/// rest.
proof fn lemma_section_first_skip(
    s: Seq<(Seq<char>, usize, usize)>,
    name: Seq<char>,
    blen: int,
    k: int,
)
    requires
        0 <= k <= s.len(),
        forall|i: int|
            0 <= i < k ==> !((#[trigger] s[i]).0 == name && s[i].1 <= blen && s[i].2 <= blen
                - s[i].1),
    ensures
        section_first(s, name, blen) == section_first(s.subrange(k, s.len() as int), name, blen),
    decreases k,
{
    if k == 0 {
        assert(s.subrange(0, s.len() as int) =~= s);
    } else {
        assert(s.drop_first() =~= s.subrange(1, s.len() as int));
        assert forall|i: int|
            0 <= i < k - 1 implies !((#[trigger] s.drop_first()[i]).0 == name
            && s.drop_first()[i].1 <= blen && s.drop_first()[i].2 <= blen
            - s.drop_first()[i].1) by {
            assert(s.drop_first()[i] == s[i + 1]);
        }
        lemma_section_first_skip(s.drop_first(), name, blen, k - 1);
        assert(s.drop_first().subrange(k - 1, s.drop_first().len() as int) =~= s.subrange(
            k,
            s.len() as int,
        ));
    }
}

/// The bytes of the named litmus section of each thread, extracted from
/// the assembled object: for thread `<n>`, the first section named
/// `litmus_<n>` whose extent lies within the buffer. Every thread must
/// have such a section.
#[verifier::loop_isolation(false)]
pub fn extract_sections(buffer: &Vec<u8>, threads: &Vec<(String, String)>) -> (r: Result<
    Vec<(String, Vec<u8>)>,
    String,
>)
    ensures
        elf_sections_of(buffer@) is None ==> r is Err,
        r matches Ok(out) ==> out@.len() == threads@.len(),
        elf_sections_of(buffer@) matches Some(secs) ==> {
            &&& (r is Ok <==> forall|i: int|
                0 <= i < threads@.len() ==> section_first(
                    secs,
                    "litmus_"@ + (#[trigger] threads@[i]).0@,
                    buffer@.len() as int,
                ) is Some)
            &&& (r matches Ok(out) ==> forall|i: int|
                0 <= i < threads@.len() ==> {
                    &&& (#[trigger] out@[i]).0@ == threads@[i].0@
                    &&& section_first(
                        secs,
                        "litmus_"@ + threads@[i].0@,
                        buffer@.len() as int,
                    ) matches Some(os) && out@[i].1@ == buffer@.subrange(
                        os.0 as int,
                        os.0 + os.1,
                    )
                })
        },
{
    let sections = match parse_elf_sections(buffer) {
        Some(s) => s,
        None => {
            return Err("Failed to parse ELF file".to_owned());
        },
    };
    let ghost secs = elf_sections_of(buffer@)->Some_0;
    proof {
        assert(secs =~~= sections_view(sections@));
    }
    let mut assembled: Vec<(String, Vec<u8>)> = Vec::new();
    let mut k: usize = 0;
    while k < threads.len()
        invariant
            k <= threads@.len(),
            assembled@.len() == k as int,
            forall|i: int|
                0 <= i < k ==> {
                    &&& (#[trigger] assembled@[i]).0@ == threads@[i].0@
                    &&& section_first(
                        secs,
                        "litmus_"@ + threads@[i].0@,
                        buffer@.len() as int,
                    ) matches Some(os) && assembled@[i].1@ == buffer@.subrange(
                        os.0 as int,
                        os.0 + os.1,
                    )
                },
        decreases threads@.len() - k,
    {
        let mut wanted = String::new();
        wanted.append("litmus_");
        wanted.append(threads[k].0.as_str());
        let ghost w = "litmus_"@ + threads@[k as int].0@;
        proof {
            assert(wanted@ == w);
        }
        let mut found: Option<Vec<u8>> = None;
        let mut j: usize = 0;
        while j < sections.len()
            invariant
                j <= sections@.len(),
                found is None ==> forall|i: int|
                    0 <= i < j ==> !((#[trigger] secs[i]).0 == w && secs[i].1 <= buffer@.len()
                        && secs[i].2 <= buffer@.len() - secs[i].1),
                found matches Some(b) ==> section_first(secs, w, buffer@.len() as int) matches Some(
                    os,
                ) && b@ == buffer@.subrange(os.0 as int, os.0 + os.1),
            decreases sections@.len() - j,
        {
            if found.is_none() && sections[j].0 == wanted {
                let offset = sections[j].1;
                let size = sections[j].2;
                if offset <= buffer.len() && size <= buffer.len() - offset {
                    proof {
                        lemma_section_first_skip(secs, w, buffer@.len() as int, j as int);
                        assert(secs.subrange(j as int, secs.len() as int)[0] == secs[j as int]);
                    }
                    found = Some(copy_bytes(buffer, offset, size));
                }
            }
            j += 1;
        }
        match found {
            Some(bytes) => {
                let name = threads[k].0.clone();
                assembled.push((name, bytes));
            },
            None => {
                proof {
                    lemma_section_first_skip(secs, w, buffer@.len() as int, secs.len() as int);
                    assert(secs.subrange(secs.len() as int, secs.len() as int) =~= Seq::<
                        (Seq<char>, usize, usize),
                    >::empty());
                }
                return Err("Could not find all threads in generated ELF file".to_owned());
            },
        }
        k += 1;
    }
    proof {
        assert forall|i: int| 0 <= i < threads@.len() implies section_first(
            secs,
            "litmus_"@ + (#[trigger] threads@[i]).0@,
            buffer@.len() as int,
        ) is Some by {
            assert(assembled@[i].0@ == threads@[i].0@);
        }
    }
    Ok(assembled)
}

/// Copy a byte range out of a buffer.
fn copy_bytes(buffer: &Vec<u8>, offset: usize, size: usize) -> (r: Vec<u8>)
    requires
        offset + size <= buffer@.len(),
    ensures
        r@ == buffer@.subrange(offset as int, offset as int + size as int),
{
    let mut out: Vec<u8> = Vec::new();
    let blen = buffer.len();
    let mut k: usize = 0;
    while k < size
        invariant
            k <= size,
            offset + size <= buffer@.len(),
            buffer@.len() == blen as int,
            out@.len() == k as int,
            forall|i: int| 0 <= i < k ==> out@[i] == buffer@[offset + i],
        decreases size - k,
    {
        proof {
            assert(offset + k < buffer@.len());
        }
        out.push(buffer[offset + k]);
        k += 1;
    }
    proof {
        assert(out@ =~= buffer@.subrange(offset as int, offset as int + size as int));
    }
    out
}

/// The parsed litmus description, before assembly: the name, the optional
/// hash, the symbolic address assignment, the threads with their register
/// initializations and code, and the final assertion.
pub struct LitmusSource {
    pub name: String,
    pub hash: Option<String>,
    pub symbolic_addrs: Vec<(String, u64)>,
    pub threads: Vec<(String, Vec<(u32, u64)>, String)>,
    pub final_assertion: Prop,
}

/// The assembled litmus test.
pub struct Litmus {
    pub name: String,
    pub hash: Option<String>,
    pub symbolic_addrs: Vec<(String, u64)>,
    pub assembled: Vec<(String, Vec<(u32, u64)>, Vec<u8>)>,
    pub final_assertion: Prop,
}

/// The address of the first symbolic-address entry with the given name.
pub open spec fn addrs_first(s: Seq<(String, u64)>, name: Seq<char>) -> Option<u64>
    decreases s.len(),
{
    if s.len() == 0 {
        None
    } else if s[0].0@ == name {
        Some(s[0].1)
    } else {
        addrs_first(s.drop_first(), name)
    }
}

/// Within a prefix without the name, the first match lies in the rest.
proof fn lemma_addrs_first_skip(s: Seq<(String, u64)>, name: Seq<char>, k: int)
    requires
        0 <= k <= s.len(),
        forall|i: int| 0 <= i < k ==> (#[trigger] s[i]).0@ != name,
    ensures
        addrs_first(s, name) == addrs_first(s.subrange(k, s.len() as int), name),
    decreases k,
{
    if k == 0 {
        assert(s.subrange(0, s.len() as int) =~= s);
    } else {
        assert(s.drop_first() =~= s.subrange(1, s.len() as int));
        assert forall|i: int| 0 <= i < k - 1 implies (#[trigger] s.drop_first()[i]).0@ != name by {
            assert(s.drop_first()[i] == s[i + 1]);
        }
        lemma_addrs_first_skip(s.drop_first(), name, k - 1);
        assert(s.drop_first().subrange(k - 1, s.drop_first().len() as int) =~= s.subrange(
            k,
            s.len() as int,
        ));
    }
}

/// Look up a symbolic address by name: the first entry with that name.
#[verifier::loop_isolation(false)]
fn addr_lookup(addrs: &Vec<(String, u64)>, name: &String) -> (r: Option<u64>)
    ensures
        r == addrs_first(addrs@, name@),
{
    let mut k: usize = 0;
    while k < addrs.len()
        invariant
            k <= addrs@.len(),
            forall|i: int| 0 <= i < k ==> (#[trigger] addrs@[i]).0@ != name@,
        decreases addrs@.len() - k,
    {
        if addrs[k].0 == *name {
            proof {
                let s = addrs@;
                lemma_addrs_first_skip(s, name@, k as int);
                let rest = s.subrange(k as int, s.len() as int);
                assert(rest[0] == s[k as int]);
            }
            return Some(addrs[k].1);
        }
        k += 1;
    }
    proof {
        let s = addrs@;
        lemma_addrs_first_skip(s, name@, s.len() as int);
        assert(s.subrange(s.len() as int, s.len() as int).len() == 0);
    }
    None
}


/// The test name a litmus description declares: the text under its `name`
/// key.
pub open spec fn litmus_name_of(t: AbsToml) -> Option<Seq<char>> {
    match t {
        AbsToml::Table(entries) => match table_first(entries, "name"@) {
            Some(v) => match v {
                AbsToml::Text(s) => Some(s),
                _ => None,
            },
            None => None,
        },
        _ => None,
    }
}

/// The hash a litmus description declares: text as it stands, an integer
/// in decimal, a boolean as its name; nothing otherwise.
pub open spec fn litmus_hash_of(t: AbsToml) -> Option<Seq<char>> {
    match t {
        AbsToml::Table(entries) => match table_first(entries, "hash"@) {
            Some(v) => match v {
                AbsToml::Text(s) => Some(s),
                AbsToml::Integer(i) => Some(crate::strings::dec_digits_i128(i as i128)),
                AbsToml::Boolean(b) => Some(
                    if b {
                        "true"@
                    } else {
                        "false"@
                    },
                ),
                _ => None,
            },
            None => None,
        },
        _ => None,
    }
}

/// The texts of an array of text values, in order; nothing when any
/// element is not text.
pub open spec fn texts_of(items: Seq<AbsToml>) -> Option<Seq<Seq<char>>>
    decreases items.len(),
{
    if items.len() == 0 {
        Some(Seq::empty())
    } else {
        match items[0] {
            AbsToml::Text(s) => match texts_of(items.drop_first()) {
                Some(rest) => Some(seq![s] + rest),
                None => None,
            },
            _ => None,
        }
    }
}

/// The symbolic address names a litmus description declares, in
/// declaration order.
pub open spec fn litmus_symbolic_of(t: AbsToml) -> Option<Seq<Seq<char>>> {
    match t {
        AbsToml::Table(entries) => match table_first(entries, "symbolic"@) {
            Some(v) => match v {
                AbsToml::Array(items) => texts_of(items),
                _ => None,
            },
            None => None,
        },
        _ => None,
    }
}

/// The parse of one register initialization: the register name resolves
/// as an assertion register name does, and the value names a symbolic
/// address.
pub open spec fn spec_init_of(
    reg: Seq<char>,
    v: AbsToml,
    addrs: Seq<(String, u64)>,
    renames: Seq<(String, u32)>,
    tab: Seq<Seq<char>>,
) -> Option<(u32, u64)> {
    match spec_resolve_reg(renames, tab, reg) {
        Some(rid) => match v {
            AbsToml::Text(s) => match addrs_first(addrs, s) {
                Some(a) => Some((rid, a)),
                None => None,
            },
            _ => None,
        },
        None => None,
    }
}

/// The parse of a table of register initializations, in declaration
/// order.
pub open spec fn spec_inits_of(
    entries: Seq<(Seq<char>, AbsToml)>,
    addrs: Seq<(String, u64)>,
    renames: Seq<(String, u32)>,
    tab: Seq<Seq<char>>,
) -> Option<Seq<(u32, u64)>>
    decreases entries.len(),
{
    if entries.len() == 0 {
        Some(Seq::empty())
    } else {
        match spec_init_of(entries[0].0, entries[0].1, addrs, renames, tab) {
            Some(p) => match spec_inits_of(entries.drop_first(), addrs, renames, tab) {
                Some(rest) => Some(seq![p] + rest),
                None => None,
            },
            None => None,
        }
    }
}

/// The register initializations a thread's description declares, under
/// its `init` key.
pub open spec fn spec_thread_inits_of(
    tv: AbsToml,
    addrs: Seq<(String, u64)>,
    renames: Seq<(String, u32)>,
    tab: Seq<Seq<char>>,
) -> Option<Seq<(u32, u64)>> {
    match tv {
        AbsToml::Table(te) => match table_first(te, "init"@) {
            Some(v) => match v {
                AbsToml::Table(ie) => spec_inits_of(ie, addrs, renames, tab),
                _ => None,
            },
            None => None,
        },
        _ => None,
    }
}

/// The code text a thread's description declares, under its `code` key.
pub open spec fn thread_code_of(tv: AbsToml) -> Option<Seq<char>> {
    match tv {
        AbsToml::Table(te) => match table_first(te, "code"@) {
            Some(v) => match v {
                AbsToml::Text(s) => Some(s),
                _ => None,
            },
            None => None,
        },
        _ => None,
    }
}

/// Whether every register name of an initialization table is ASCII.
pub open spec fn inits_ascii(entries: Seq<(Seq<char>, AbsToml)>) -> bool {
    forall|i: int|
        0 <= i < entries.len() ==> vstd::utf8::is_ascii_chars((#[trigger] entries[i]).0)
}

/// Read one register initialization: the register name is mapped through
/// the rename table, then encoded and looked up; the value must name a
/// symbolic address.
fn parse_init(
    reg: &String,
    value: &TomlValue,
    symbolic_addrs: &Vec<(String, u64)>,
    symtab: &Symtab,
    isa: &ISAConfig,
) -> (r: Result<(u32, u64), String>)
    requires
        symtab.wf(),
    ensures
        vstd::utf8::is_ascii_chars(reg@) ==> match r {
            Ok(p) => spec_init_of(
                reg@,
                value@,
                symbolic_addrs@,
                isa.register_renames@,
                symtab@,
            ) == Some(p),
            Err(_) => spec_init_of(
                reg@,
                value@,
                symbolic_addrs@,
                isa.register_renames@,
                symtab@,
            ) is None,
        },
{
    let reg_id = match isa.rename_lookup(reg) {
        Some(reg_id) => reg_id,
        None => {
            let rn = reg.as_str();
            let encoded = zencode::encode(rn);
            proof {
                if vstd::utf8::is_ascii_chars(reg@) {
                    assert(vstd::string::is_ascii(rn));
                    vstd::string::is_ascii_spec_bytes(rn);
                    assert(rn.spec_bytes() =~= ascii_bytes(reg@));
                }
            }
            match symtab.get(encoded.as_str()) {
                Some(reg_id) => {
                    proof {
                        if vstd::utf8::is_ascii_chars(reg@) {
                            let enc = zencode::spec_encode(ascii_bytes(reg@));
                            assert(symtab@[reg_id as int] == enc);
                            let w = choose|i: int|
                                0 <= i < symtab@.len() && symtab@[i] == enc;
                            assert(symtab@[w] == symtab@[reg_id as int]);
                            assert(w == reg_id as int);
                        }
                    }
                    reg_id
                },
                None => {
                    return Err("No register in thread init".to_owned());
                },
            }
        },
    };
    let value_name = match toml_as_str(value) {
        Some(s) => s,
        None => {
            return Err("Init value must be a string".to_owned());
        },
    };
    match addr_lookup(symbolic_addrs, value_name) {
        Some(addr) => Ok((reg_id, addr)),
        None => Err("Cannot handle init value in litmus".to_owned()),
    }
}


/// Whether every register name of a thread's initialization table is
/// ASCII.
pub open spec fn thread_inits_ascii(tv: AbsToml) -> bool {
    match tv {
        AbsToml::Table(te) => match table_first(te, "init"@) {
            Some(v) => match v {
                AbsToml::Table(ie) => inits_ascii(ie),
                _ => true,
            },
            None => true,
        },
        _ => true,
    }
}

/// Read the register initializations of one thread.
#[verifier::loop_isolation(false)]
fn parse_thread_inits(
    thread: &TomlValue,
    symbolic_addrs: &Vec<(String, u64)>,
    symtab: &Symtab,
    isa: &ISAConfig,
) -> (r: Result<Vec<(u32, u64)>, String>)
    requires
        symtab.wf(),
    ensures
        thread_inits_ascii(thread@) ==> match r {
            Ok(out) => spec_thread_inits_of(
                thread@,
                symbolic_addrs@,
                isa.register_renames@,
                symtab@,
            ) == Some(out@),
            Err(_) => spec_thread_inits_of(
                thread@,
                symbolic_addrs@,
                isa.register_renames@,
                symtab@,
            ) is None,
        },
{
    let inits = match toml_get(thread, "init") {
        Some(v) => v,
        None => {
            return Err("Thread init must be a list of register name/value pairs".to_owned());
        },
    };
    match inits {
        TomlValue::Table(entries) => {
            proof {
                crate::toml_model::lemma_toml_table_view_len(entries@);
                assert forall|i: int|
                    0 <= i < entries@.len() implies #[trigger] crate::toml_model::toml_table_view(
                    entries@,
                )[i] == (entries@[i].0@, crate::toml_model::toml_view(entries@[i].1)) by {
                    crate::toml_model::lemma_toml_table_view_index(entries@, i);
                }
            }
            let ghost ie = crate::toml_model::toml_table_view(entries@);
            let ghost addrs = symbolic_addrs@;
            let ghost renames = isa.register_renames@;
            let ghost tab = symtab@;
            let mut out: Vec<(u32, u64)> = Vec::new();
            let mut k: usize = 0;
            proof {
                assert(ie.subrange(0, ie.len() as int) =~= ie);
            }
            while k < entries.len()
                invariant
                    symtab.wf(),
                    k <= entries@.len(),
                    out@.len() == k as int,
                    inits_ascii(ie) ==> spec_inits_of(ie, addrs, renames, tab) == (
                    match spec_inits_of(ie.subrange(k as int, ie.len() as int), addrs, renames, tab) {
                        Some(rest) => Some(out@ + rest),
                        None => None::<Seq<(u32, u64)>>,
                    }),
                decreases entries@.len() - k,
            {
                proof {
                    if inits_ascii(ie) {
                        assert(vstd::utf8::is_ascii_chars(ie[k as int].0));
                    }
                }
                match parse_init(&entries[k].0, &entries[k].1, symbolic_addrs, symtab, isa) {
                    Ok(pair) => {
                        let ghost before = out@;
                        out.push(pair);
                        proof {
                            if inits_ascii(ie) {
                                let sufk = ie.subrange(k as int, ie.len() as int);
                                assert(sufk[0] == ie[k as int]);
                                assert(sufk.drop_first() =~= ie.subrange(
                                    k as int + 1,
                                    ie.len() as int,
                                ));
                                assert(spec_init_of(ie[k as int].0, ie[k as int].1, addrs, renames, tab)
                                    == Some(pair));
                                match spec_inits_of(sufk.drop_first(), addrs, renames, tab) {
                                    Some(rest) => {
                                        assert(before + (seq![pair] + rest) =~= out@ + rest);
                                    },
                                    None => {},
                                }
                            }
                        }
                    },
                    Err(e) => {
                        proof {
                            if inits_ascii(ie) {
                                let sufk = ie.subrange(k as int, ie.len() as int);
                                assert(sufk[0] == ie[k as int]);
                            }
                        }
                        return Err(e);
                    },
                }
                k += 1;
            }
            proof {
                if inits_ascii(ie) {
                    assert(ie.subrange(k as int, ie.len() as int).len() == 0);
                    assert(out@ + Seq::<(u32, u64)>::empty() =~= out@);
                }
            }
            Ok(out)
        },
        _ => Err("Thread init must be a list of register name/value pairs".to_owned()),
    }
}


/// The views of a list of names.
pub open spec fn strings_view(s: Seq<String>) -> Seq<Seq<char>> {
    s.map_values(|x: String| x@)
}


/// Whether one declared register initialization is well-formed: an ASCII
/// register name that resolves, and a value naming a declared symbolic
/// address.
pub open spec fn init_decl_wf(
    reg: Seq<char>,
    v: AbsToml,
    ns: Seq<Seq<char>>,
    renames: Seq<(String, u32)>,
    tab: Seq<Seq<char>>,
) -> bool {
    &&& vstd::utf8::is_ascii_chars(reg)
    &&& spec_resolve_reg(renames, tab, reg) is Some
    &&& (v matches AbsToml::Text(s) && exists|j: int| 0 <= j < ns.len() && ns[j] == s)
}

/// Whether one declared thread is well-formed: an initialization table of
/// well-formed entries and code text.
pub open spec fn thread_decl_wf(
    tv: AbsToml,
    ns: Seq<Seq<char>>,
    renames: Seq<(String, u32)>,
    tab: Seq<Seq<char>>,
) -> bool {
    &&& (match tv {
        AbsToml::Table(te) => match table_first(te, "init"@) {
            Some(v) => match v {
                AbsToml::Table(ie) => forall|i: int|
                    0 <= i < ie.len() ==> init_decl_wf(
                        (#[trigger] ie[i]).0,
                        ie[i].1,
                        ns,
                        renames,
                        tab,
                    ),
                _ => false,
            },
            None => false,
        },
        _ => false,
    })
    &&& thread_code_of(tv) is Some
}

/// Whether a declared litmus description is well-formed: a name, at most
/// 0x10000 declared symbolic names, a thread table of well-formed threads,
/// and assertion text. The assertion's own S-expression grammar is the one
/// step this predicate does not cover.
pub open spec fn litmus_decl_wf(
    t: AbsToml,
    renames: Seq<(String, u32)>,
    tab: Seq<Seq<char>>,
) -> bool {
    &&& litmus_name_of(t) is Some
    &&& litmus_symbolic_of(t) is Some
    &&& litmus_symbolic_of(t)->Some_0.len() <= 0x10000
    &&& (match t {
        AbsToml::Table(e) => {
            &&& (match table_first(e, "thread"@) {
                Some(v) => match v {
                    AbsToml::Table(th) => forall|i: int|
                        0 <= i < th.len() ==> thread_decl_wf(
                            (#[trigger] th[i]).1,
                            litmus_symbolic_of(t)->Some_0,
                            renames,
                            tab,
                        ),
                    _ => false,
                },
                None => false,
            })
            &&& (match table_first(e, "final"@) {
                Some(v) => match v {
                    AbsToml::Table(fe) => match table_first(fe, "assertion"@) {
                        Some(a) => a is Text,
                        None => false,
                    },
                    _ => false,
                },
                None => false,
            })
        },
        _ => false,
    })
}

/// Whether a result failed on the final assertion's S-expression text:
/// the one step of the declaration [`litmus_decl_wf`] does not model.
pub open spec fn assertion_refused(r: Result<LitmusSource, String>) -> bool {
    r matches Err(e) && (e@ == "Could not parse final state in litmus file"@ || e@
        == "Cannot parse final assertion"@)
}

/// A name among the address entries has a first match.
proof fn lemma_addrs_first_contains(s: Seq<(String, u64)>, name: Seq<char>)
    requires
        exists|j: int| 0 <= j < s.len() && (#[trigger] s[j]).0@ == name,
    ensures
        addrs_first(s, name) is Some,
    decreases s.len(),
{
    if s[0].0@ != name {
        let j = choose|j: int| 0 <= j < s.len() && (#[trigger] s[j]).0@ == name;
        assert(s.drop_first()[j - 1].0@ == name);
        lemma_addrs_first_contains(s.drop_first(), name);
    }
}

/// A table of well-formed initializations parses in full.
proof fn lemma_inits_wf_some(
    ie: Seq<(Seq<char>, AbsToml)>,
    ns: Seq<Seq<char>>,
    addrs: Seq<(String, u64)>,
    renames: Seq<(String, u32)>,
    tab: Seq<Seq<char>>,
)
    requires
        forall|i: int|
            0 <= i < ie.len() ==> init_decl_wf((#[trigger] ie[i]).0, ie[i].1, ns, renames, tab),
        addrs.len() == ns.len(),
        forall|j: int| 0 <= j < ns.len() ==> (#[trigger] addrs[j]).0@ == ns[j],
    ensures
        spec_inits_of(ie, addrs, renames, tab) is Some,
    decreases ie.len(),
{
    if ie.len() > 0 {
        assert(init_decl_wf(ie[0].0, ie[0].1, ns, renames, tab));
        let s = ie[0].1->Text_0;
        let j = choose|j: int| 0 <= j < ns.len() && ns[j] == s;
        assert(addrs[j].0@ == s);
        lemma_addrs_first_contains(addrs, s);
        assert forall|i: int| 0 <= i < ie.drop_first().len() implies init_decl_wf(
            (#[trigger] ie.drop_first()[i]).0,
            ie.drop_first()[i].1,
            ns,
            renames,
            tab,
        ) by {
            assert(ie.drop_first()[i] == ie[i + 1]);
        }
        lemma_inits_wf_some(ie.drop_first(), ns, addrs, renames, tab);
    }
}

/// What a parsed litmus description holds of the declaration it was read
/// from: the declared name; the hash key rendered as text; the symbolic
/// names in declaration order; each declared thread's name, code and
/// (for ASCII register names) register initializations; and a final
/// assertion section of text.
pub open spec fn litmus_source_matches(
    t: AbsToml,
    src: LitmusSource,
    renames: Seq<(String, u32)>,
    tab: Seq<Seq<char>>,
) -> bool {
    &&& litmus_name_of(t) == Some(src.name@)
    &&& (match src.hash {
        Some(h) => litmus_hash_of(t) == Some(h@),
        None => litmus_hash_of(t) is None,
    })
    &&& (match litmus_symbolic_of(t) {
        Some(ns) => {
            &&& ns.len() == src.symbolic_addrs@.len()
            &&& ns.len() <= 0x10000
            &&& forall|i: int|
                0 <= i < ns.len() ==> (#[trigger] src.symbolic_addrs@[i]).0@ == ns[i]
        },
        None => false,
    })
    &&& (match t {
        AbsToml::Table(e) => {
            &&& (match table_first(e, "thread"@) {
                Some(v) => match v {
                    AbsToml::Table(th) => {
                        &&& src.threads@.len() == th.len()
                        &&& forall|i: int|
                            0 <= i < th.len() ==> {
                                &&& (#[trigger] src.threads@[i]).0@ == th[i].0
                                &&& thread_code_of(th[i].1) == Some(src.threads@[i].2@)
                                &&& thread_inits_ascii(th[i].1) ==> spec_thread_inits_of(
                                    th[i].1,
                                    src.symbolic_addrs@,
                                    renames,
                                    tab,
                                ) == Some(src.threads@[i].1@)
                            }
                    },
                    _ => false,
                },
                None => false,
            })
            &&& (match table_first(e, "final"@) {
                Some(v) => match v {
                    AbsToml::Table(fe) => match table_first(fe, "assertion"@) {
                        Some(a) => a is Text,
                        None => false,
                    },
                    _ => false,
                },
                None => false,
            })
        },
        _ => false,
    })
}

/// Parse a litmus description: the name, the optional hash, the symbolic
/// addresses in declaration order at the configured base and stride, each
/// thread's register initializations and code, and the final assertion.
#[verifier::loop_isolation(false)]
pub fn parse_litmus_source(contents: &str, symtab: &Symtab, isa: &ISAConfig) -> (r: Result<
    LitmusSource,
    String,
>)
    requires
        symtab.wf(),
        isa.symbolic_addr_base + 0x10000 * isa.symbolic_addr_stride <= u64::MAX,
    ensures
        toml_of(contents@) is None ==> r is Err,
        r matches Ok(src) ==> forall|i: int|
            0 <= i < src.symbolic_addrs@.len() ==> (#[trigger] src.symbolic_addrs@[i]).1
                == symbolic_addr_at(isa.symbolic_addr_base, isa.symbolic_addr_stride, i),
        toml_of(contents@) matches Some(t) ==> {
            &&& (litmus_name_of(t) is None ==> r is Err)
            &&& (litmus_symbolic_of(t) is None ==> r is Err)
            &&& (match litmus_symbolic_of(t) {
                Some(ns) => ns.len() > 0x10000 ==> r is Err,
                None => true,
            })
            &&& (r matches Ok(src) ==> litmus_source_matches(
                t,
                src,
                isa.register_renames@,
                symtab@,
            ))
            &&& (litmus_decl_wf(t, isa.register_renames@, symtab@) ==> (r is Ok
                || assertion_refused(r)))
        },
{
    let litmus_toml = match crate::toml_model::parse_toml(contents) {
        Some(v) => v,
        None => {
            return Err("Error when parsing litmus".to_owned());
        },
    };
    let name = match toml_get(&litmus_toml, "name") {
        Some(v) => match toml_as_str(v) {
            Some(s) => s.clone(),
            None => {
                return Err("No name found in litmus file".to_owned());
            },
        },
        None => {
            return Err("No name found in litmus file".to_owned());
        },
    };
    let hash: Option<String> = match toml_get(&litmus_toml, "hash") {
        Some(v) => match v {
            TomlValue::Text(s) => Some(s.clone()),
            TomlValue::Integer(i) => Some(crate::strings::dec_string_i128(*i as i128)),
            TomlValue::Boolean(true) => Some("true".to_owned()),
            TomlValue::Boolean(false) => Some("false".to_owned()),
            _ => None,
        },
        None => None,
    };
    // the symbolic names, in declaration order
    let symbolic = match toml_get(&litmus_toml, "symbolic") {
        Some(v) => v,
        None => {
            return Err("No symbolic addresses found in litmus file".to_owned());
        },
    };
    let mut names: Vec<String> = Vec::new();
    match symbolic {
        TomlValue::Array(items) => {
            proof {
                crate::toml_model::lemma_tomls_view_len(items@);
                assert forall|i: int|
                    0 <= i < items@.len() implies #[trigger] crate::toml_model::tomls_view(
                    items@,
                )[i] == crate::toml_model::toml_view(items@[i]) by {
                    crate::toml_model::lemma_tomls_view_index(items@, i);
                }
            }
            let ghost sv = crate::toml_model::tomls_view(items@);
            proof {
                assert(sv.subrange(0, sv.len() as int) =~= sv);
            }
            let mut k: usize = 0;
            while k < items.len()
                invariant
                    k <= items@.len(),
                    names@.len() == k as int,
                    texts_of(sv) == (match texts_of(sv.subrange(k as int, sv.len() as int)) {
                        Some(rest) => Some(strings_view(names@) + rest),
                        None => None::<Seq<Seq<char>>>,
                    }),
                decreases items@.len() - k,
            {
                proof {
                    let sufk = sv.subrange(k as int, sv.len() as int);
                    assert(sufk[0] == sv[k as int]);
                    assert(sufk.drop_first() =~= sv.subrange(k as int + 1, sv.len() as int));
                }
                match toml_as_str(&items[k]) {
                    Some(s) => {
                        let ghost before = names@;
                        names.push(s.clone());
                        proof {
                            assert(strings_view(names@) =~= strings_view(before).push(s@));
                            match texts_of(sv.subrange(k as int + 1, sv.len() as int)) {
                                Some(rest) => {
                                    assert(strings_view(before) + (seq![s@] + rest)
                                        =~= strings_view(names@) + rest);
                                },
                                None => {},
                            }
                        }
                    },
                    None => {
                        return Err("Symbolic addresses must be strings".to_owned());
                    },
                }
                k += 1;
            }
            proof {
                assert(sv.subrange(k as int, sv.len() as int).len() == 0);
                assert(strings_view(names@) + Seq::<Seq<char>>::empty() =~= strings_view(names@));
            }
        },
        _ => {
            return Err("No symbolic addresses found in litmus file".to_owned());
        },
    }
    proof {
        assert(litmus_symbolic_of(litmus_toml@) == Some(strings_view(names@)));
    }
    let ghost ns = strings_view(names@);
    if names.len() > 0x10000 {
        return Err("Too many symbolic addresses in litmus file".to_owned());
    }
    proof {
        assert(names@.len() * isa.symbolic_addr_stride <= 0x10000 * isa.symbolic_addr_stride)
            by (nonlinear_arith)
            requires
                names@.len() <= 0x10000,
                isa.symbolic_addr_stride >= 0,
        ;
    }
    let symbolic_addrs = assign_symbolic_addrs(
        names,
        isa.symbolic_addr_base,
        isa.symbolic_addr_stride,
    );
    proof {
        assert(symbolic_addrs@.len() == ns.len());
        assert forall|j: int| 0 <= j < ns.len() implies (#[trigger] symbolic_addrs@[j]).0@
            == ns[j] by {
        }
    }
    // the threads, each with register initializations and code
    let threads = match toml_get(&litmus_toml, "thread") {
        Some(v) => v,
        None => {
            return Err("No threads found in litmus file".to_owned());
        },
    };
    let mut out_threads: Vec<(String, Vec<(u32, u64)>, String)> = Vec::new();
    match threads {
        TomlValue::Table(entries) => {
            proof {
                crate::toml_model::lemma_toml_table_view_len(entries@);
                assert forall|i: int|
                    0 <= i < entries@.len() implies #[trigger] crate::toml_model::toml_table_view(
                    entries@,
                )[i] == (entries@[i].0@, crate::toml_model::toml_view(entries@[i].1)) by {
                    crate::toml_model::lemma_toml_table_view_index(entries@, i);
                }
            }
            let ghost th = crate::toml_model::toml_table_view(entries@);
            let ghost renames = isa.register_renames@;
            let mut k: usize = 0;
            while k < entries.len()
                invariant
                    symtab.wf(),
                    k <= entries@.len(),
                    out_threads@.len() == k as int,
                    forall|i: int|
                        0 <= i < k ==> {
                            &&& (#[trigger] out_threads@[i]).0@ == th[i].0
                            &&& thread_code_of(th[i].1) == Some(out_threads@[i].2@)
                            &&& thread_inits_ascii(th[i].1) ==> spec_thread_inits_of(
                                th[i].1,
                                symbolic_addrs@,
                                isa.register_renames@,
                                symtab@,
                            ) == Some(out_threads@[i].1@)
                        },
                decreases entries@.len() - k,
            {
                proof {
                    if litmus_decl_wf(litmus_toml@, renames, symtab@) {
                        assert(litmus_toml@ is Table);
                        let e0 = litmus_toml@->Table_0;
                        assert(table_first(e0, "thread"@) == Some(AbsToml::Table(th)));
                        assert(match table_first(e0, "thread"@) {
                            Some(v) => match v {
                                AbsToml::Table(th2) => forall|i: int|
                                    0 <= i < th2.len() ==> thread_decl_wf(
                                        (#[trigger] th2[i]).1,
                                        litmus_symbolic_of(litmus_toml@)->Some_0,
                                        renames,
                                        symtab@,
                                    ),
                                _ => false,
                            },
                            None => false,
                        });
                        assert(thread_decl_wf(th[k as int].1, ns, renames, symtab@));
                        match th[k as int].1 {
                            AbsToml::Table(te) => match table_first(te, "init"@) {
                                Some(v) => match v {
                                    AbsToml::Table(ie) => {
                                        assert forall|i: int| 0 <= i < ie.len() implies
                                            vstd::utf8::is_ascii_chars(
                                            (#[trigger] ie[i]).0,
                                        ) by {
                                            assert(init_decl_wf(
                                                ie[i].0,
                                                ie[i].1,
                                                ns,
                                                renames,
                                                symtab@,
                                            ));
                                        }
                                        assert(inits_ascii(ie));
                                        lemma_inits_wf_some(
                                            ie,
                                            ns,
                                            symbolic_addrs@,
                                            renames,
                                            symtab@,
                                        );
                                        assert(thread_inits_ascii(th[k as int].1));
                                        assert(spec_thread_inits_of(
                                            th[k as int].1,
                                            symbolic_addrs@,
                                            renames,
                                            symtab@,
                                        ) is Some);
                                    },
                                    _ => {
                                        assert(false);
                                    },
                                },
                                None => {
                                    assert(false);
                                },
                            },
                            _ => {
                                assert(false);
                            },
                        }
                        assert(thread_code_of(th[k as int].1) is Some);
                    }
                }
                let inits = match parse_thread_inits(
                    &entries[k].1,
                    &symbolic_addrs,
                    symtab,
                    isa,
                ) {
                    Ok(i) => i,
                    Err(e) => {
                        return Err(e);
                    },
                };
                let code = match toml_get(&entries[k].1, "code") {
                    Some(v) => match toml_as_str(v) {
                        Some(s) => s.clone(),
                        None => {
                            return Err("No code found for thread".to_owned());
                        },
                    },
                    None => {
                        return Err("No code found for thread".to_owned());
                    },
                };
                let tname = entries[k].0.clone();
                out_threads.push((tname, inits, code));
                k += 1;
            }
        },
        _ => {
            return Err("No threads found in litmus file".to_owned());
        },
    }
    // the final assertion
    let fin = match toml_get(&litmus_toml, "final") {
        Some(v) => v,
        None => {
            return Err("No final section found in litmus file".to_owned());
        },
    };
    let assertion_text = match toml_get(fin, "assertion") {
        Some(v) => match toml_as_str(v) {
            Some(s) => s,
            None => {
                return Err("No final.assertion found in litmus file".to_owned());
            },
        },
        None => {
            return Err("No final.assertion found in litmus file".to_owned());
        },
    };
    let sexp = match parse_assertion(assertion_text.as_str()) {
        Ok(s) => s,
        Err(e) => {
            return Err(e);
        },
    };
    let final_assertion = match Prop::from_sexp(&sexp, symtab, isa) {
        Some(p) => p,
        None => {
            return Err("Cannot parse final assertion".to_owned());
        },
    };
    Ok(LitmusSource { name, hash, symbolic_addrs, threads: out_threads, final_assertion })
}

impl Litmus {
    /// Pair the parsed threads with their assembled bytes, by position.
    #[verifier::loop_isolation(false)]
    pub fn from_parts(source: LitmusSource, assembled: Vec<(String, Vec<u8>)>) -> (r: Result<
        Litmus,
        String,
    >)
        ensures
            r is Ok <==> assembled@.len() == source.threads@.len(),
            r matches Ok(l) ==> {
                &&& l.name == source.name
                &&& l.hash == source.hash
                &&& l.symbolic_addrs == source.symbolic_addrs
                &&& l.final_assertion == source.final_assertion
                &&& l.assembled@.len() == source.threads@.len()
                &&& forall|i: int|
                    0 <= i < source.threads@.len() ==> {
                        &&& (#[trigger] l.assembled@[i]).0 == source.threads@[i].0
                        &&& l.assembled@[i].1 == source.threads@[i].1
                        &&& l.assembled@[i].2 == assembled@[i].1
                    }
            },
    {
        if assembled.len() != source.threads.len() {
            return Err("Could not find all threads in generated ELF file".to_owned());
        }
        let mut out: Vec<(String, Vec<(u32, u64)>, Vec<u8>)> = Vec::new();
        let mut threads = source.threads;
        let mut bytes = assembled;
        let ghost t0 = threads@;
        let ghost b0 = bytes@;
        let n = threads.len();
        let mut k: usize = 0;
        while k < n
            invariant
                k <= n,
                threads@.len() == n - k,
                bytes@.len() == n - k,
                threads@ =~= t0.subrange(k as int, n as int),
                bytes@ =~= b0.subrange(k as int, n as int),
                out@.len() == k as int,
                forall|i: int|
                    0 <= i < k ==> {
                        &&& (#[trigger] out@[i]).0 == t0[i].0
                        &&& out@[i].1 == t0[i].1
                        &&& out@[i].2 == b0[i].1
                    },
            decreases n - k,
        {
            proof {
                assert(threads@[0] == t0[k as int]);
                assert(bytes@[0] == b0[k as int]);
            }
            let (tname, inits, _code) = threads.remove(0);
            let (_bname, code_bytes) = bytes.remove(0);
            out.push((tname, inits, code_bytes));
            k += 1;
        }
        Ok(
            Litmus {
                name: source.name,
                hash: source.hash,
                symbolic_addrs: source.symbolic_addrs,
                assembled: out,
                final_assertion: source.final_assertion,
            },
        )
    }
}

} // verus!
