//! The universal runtime value of the evaluator.
//!
//! A `Val` mixes concrete scalars with handles to SMT terms: the primitive
//! operations inspect the shape of their operands and either compute
//! concretely or emit solver definitions. Contracts speak about values
//! through their abstract view [`AbsVal`], in which every sequence is a
//! mathematical `Seq`.

use vstd::prelude::*;
use crate::bitvector::Sbits;

verus! {

broadcast use vstd::std_specs::vec::axiom_vec_index_decreases;

/// A handle to a symbol the solver knows; widths and sorts are tracked by
/// the solver facade.
pub type Sym = u32;

/// A member of a named enumeration: the enumeration's identity and the
/// member's position within it.
#[derive(Clone, Copy, Debug, PartialEq, Eq, Hash, Structural)]
pub struct EnumMember {
    pub enum_id: usize,
    pub member: usize,
}

/// The universal runtime value.
#[derive(Debug)]
pub enum Val {
    /// A handle naming an SMT term.
    Symbolic(Sym),
    /// A 64-bit machine integer.
    I64(i64),
    /// A 128-bit machine integer.
    I128(i128),
    /// A concrete bit vector.
    Bits(Sbits),
    /// A boolean.
    Bool(bool),
    /// A member of a named enumeration.
    Enum(EnumMember),
    /// Immutable text; never symbolic.
    String(String),
    /// The unit value.
    Unit,
    /// A finite random-access sequence of values.
    Vector(Vec<Val>),
    /// A sequence of values with cons/head/tail discipline; the head is the
    /// last element.
    List(Vec<Val>),
    /// An ordered mapping from field names to values; keys are unique.
    Struct(Vec<(u32, Val)>),
    /// A reference to a symbol-table location.
    Ref(u32),
    /// An uninitialized value.
    Poison,
}

/// The abstract view of a runtime value: the same shape as [`Val`], with
/// mathematical sequences in place of vectors and strings.
#[verifier::ext_equal]
pub enum AbsVal {
    Symbolic(Sym),
    I64(i64),
    I128(i128),
    Bits(Sbits),
    Bool(bool),
    Enum(EnumMember),
    String(Seq<char>),
    Unit,
    Vector(Seq<AbsVal>),
    List(Seq<AbsVal>),
    Struct(Seq<(u32, AbsVal)>),
    Ref(u32),
    Poison,
}

/// The abstract view of a value.
pub open spec fn val_view(v: Val) -> AbsVal
    decreases v,
    via val_view_decreases
{
    match v {
        Val::Symbolic(s) => AbsVal::Symbolic(s),
        Val::I64(n) => AbsVal::I64(n),
        Val::I128(n) => AbsVal::I128(n),
        Val::Bits(b) => AbsVal::Bits(b),
        Val::Bool(b) => AbsVal::Bool(b),
        Val::Enum(m) => AbsVal::Enum(m),
        Val::String(s) => AbsVal::String(s@),
        Val::Unit => AbsVal::Unit,
        Val::Vector(items) => AbsVal::Vector(vals_view(items@)),
        Val::List(items) => AbsVal::List(vals_view(items@)),
        Val::Struct(fields) => AbsVal::Struct(fields_view(fields@)),
        Val::Ref(r) => AbsVal::Ref(r),
        Val::Poison => AbsVal::Poison,
    }
}

/// The abstract view of a sequence of values.
pub open spec fn vals_view(s: Seq<Val>) -> Seq<AbsVal>
    decreases s,
    via vals_view_decreases
{
    if s.len() == 0 {
        Seq::empty()
    } else {
        vals_view(s.subrange(0, s.len() - 1)).push(val_view(s[s.len() - 1]))
    }
}

/// The abstract view of a sequence of named fields.
pub open spec fn fields_view(s: Seq<(u32, Val)>) -> Seq<(u32, AbsVal)>
    decreases s,
    via fields_view_decreases
{
    if s.len() == 0 {
        Seq::empty()
    } else {
        fields_view(s.subrange(0, s.len() - 1)).push(
            (s[s.len() - 1].0, val_view(s[s.len() - 1].1)),
        )
    }
}

#[via_fn]
proof fn val_view_decreases(v: Val) {
    match v {
        Val::Vector(items) => {
            assert(decreases_to!(v => v->Vector_0));
            assert(decreases_to!(v->Vector_0 => v->Vector_0@));
        },
        Val::List(items) => {
            assert(decreases_to!(v => v->List_0));
            assert(decreases_to!(v->List_0 => v->List_0@));
        },
        Val::Struct(fields) => {
            assert(decreases_to!(v => v->Struct_0));
            assert(decreases_to!(v->Struct_0 => v->Struct_0@));
        },
        _ => {},
    }
}

#[via_fn]
proof fn vals_view_decreases(s: Seq<Val>) {
    if s.len() > 0 {
        vstd::seq::axiom_seq_len_decreases(s, s.subrange(0, s.len() - 1));
        assert(decreases_to!(s => s[s.len() - 1]));
    }
}

#[via_fn]
proof fn fields_view_decreases(s: Seq<(u32, Val)>) {
    if s.len() > 0 {
        vstd::seq::axiom_seq_len_decreases(s, s.subrange(0, s.len() - 1));
        assert(decreases_to!(s => s[s.len() - 1]));
    }
}

impl View for Val {
    type V = AbsVal;

    open spec fn view(&self) -> AbsVal {
        val_view(*self)
    }
}

/// The view of a sequence of values has the same length, element by
/// element.
pub broadcast proof fn lemma_vals_view_len(s: Seq<Val>)
    ensures
        (#[trigger] vals_view(s)).len() == s.len(),
    decreases s,
{
    if s.len() > 0 {
        lemma_vals_view_len(s.subrange(0, s.len() - 1));
    }
}

/// Each element of the view of a sequence of values is the view of the
/// corresponding element.
pub broadcast proof fn lemma_vals_view_index(s: Seq<Val>, i: int)
    requires
        0 <= i < s.len(),
    ensures
        #[trigger] vals_view(s)[i] == val_view(s[i]),
    decreases s,
{
    lemma_vals_view_len(s.subrange(0, s.len() - 1));
    if i < s.len() - 1 {
        lemma_vals_view_index(s.subrange(0, s.len() - 1), i);
    }
}

/// The view of a field sequence has the same length, element by element.
pub broadcast proof fn lemma_fields_view_len(s: Seq<(u32, Val)>)
    ensures
        (#[trigger] fields_view(s)).len() == s.len(),
    decreases s,
{
    if s.len() > 0 {
        lemma_fields_view_len(s.subrange(0, s.len() - 1));
    }
}

/// Each element of the view of a field sequence pairs the same name with
/// the view of the field's value.
pub broadcast proof fn lemma_fields_view_index(s: Seq<(u32, Val)>, i: int)
    requires
        0 <= i < s.len(),
    ensures
        #[trigger] fields_view(s)[i] == (s[i].0, val_view(s[i].1)),
    decreases s,
{
    lemma_fields_view_len(s.subrange(0, s.len() - 1));
    if i < s.len() - 1 {
        lemma_fields_view_index(s.subrange(0, s.len() - 1), i);
    }
}


/// Updating one element updates the view at that position.
pub proof fn lemma_vals_view_update(s: Seq<Val>, i: int, x: Val)
    requires
        0 <= i < s.len(),
    ensures
        vals_view(s.update(i, x)) == vals_view(s).update(i, val_view(x)),
{
    lemma_vals_view_len(s);
    lemma_vals_view_len(s.update(i, x));
    assert forall|j: int|
        0 <= j < s.len() implies vals_view(s.update(i, x))[j] == vals_view(s).update(
        i,
        val_view(x),
    )[j] by {
        lemma_vals_view_index(s.update(i, x), j);
        lemma_vals_view_index(s, j);
    }
    assert(vals_view(s.update(i, x)) =~= vals_view(s).update(i, val_view(x)));
}

/// Well-formedness of an abstract value: bit vectors are well formed and
/// struct keys are unique, recursively.
pub open spec fn abs_wf(v: AbsVal) -> bool
    decreases v,
{
    match v {
        AbsVal::Bits(b) => b.wf(),
        AbsVal::Vector(items) => forall|i: int|
            0 <= i < items.len() ==> abs_wf(#[trigger] items[i]),
        AbsVal::List(items) => forall|i: int| 0 <= i < items.len() ==> abs_wf(#[trigger] items[i]),
        AbsVal::Struct(fields) => {
            &&& forall|i: int| 0 <= i < fields.len() ==> abs_wf(#[trigger] fields[i].1)
            &&& forall|i: int, j: int| 0 <= i < j < fields.len() ==> fields[i].0 != fields[j].0
        },
        _ => true,
    }
}

/// A deep copy of a value; the copy has the same abstract view.
pub fn clone_val(v: &Val) -> (r: Val)
    ensures
        r@ == v@,
    decreases *v, 1int,
{
    match v {
        Val::Symbolic(s) => Val::Symbolic(*s),
        Val::I64(n) => Val::I64(*n),
        Val::I128(n) => Val::I128(*n),
        Val::Bits(b) => Val::Bits(*b),
        Val::Bool(b) => Val::Bool(*b),
        Val::Enum(m) => Val::Enum(*m),
        Val::String(s) => Val::String(s.clone()),
        Val::Unit => Val::Unit,
        Val::Vector(items) => {
            let out = clone_vals(items, Ghost(*v));
            let r = Val::Vector(out);
            proof {
                lemma_vals_view_len(out@);
                lemma_vals_view_len(items@);
                assert forall|i: int| 0 <= i < items@.len() implies vals_view(out@)[i]
                    == vals_view(items@)[i] by {
                    lemma_vals_view_index(out@, i);
                    lemma_vals_view_index(items@, i);
                }
                assert(vals_view(out@) =~= vals_view(items@));
            }
            r
        },
        Val::List(items) => {
            let out = clone_vals(items, Ghost(*v));
            let r = Val::List(out);
            proof {
                lemma_vals_view_len(out@);
                lemma_vals_view_len(items@);
                assert forall|i: int| 0 <= i < items@.len() implies vals_view(out@)[i]
                    == vals_view(items@)[i] by {
                    lemma_vals_view_index(out@, i);
                    lemma_vals_view_index(items@, i);
                }
                assert(vals_view(out@) =~= vals_view(items@));
            }
            r
        },
        Val::Struct(fields) => {
            let mut out: Vec<(u32, Val)> = Vec::new();
            let mut k: usize = 0;
            while k < fields.len()
                invariant
                    *v matches Val::Struct(fs) && fs == *fields,
                    k <= fields@.len(),
                    out@.len() == k as int,
                    forall|i: int|
                        0 <= i < k ==> (#[trigger] out@[i]).0 == fields@[i].0 && out@[i].1@
                            == fields@[i].1@,
                decreases fields@.len() - k,
            {
                proof {
                    assert(decreases_to!(*v => v->Struct_0));
                    assert(decreases_to!(v->Struct_0 => v->Struct_0@));
                    assert(decreases_to!(v->Struct_0@ => v->Struct_0@[k as int]));
                    assert(decreases_to!(*v => fields@[k as int].1));
                }
                let name = fields[k].0;
                let field = clone_val(&fields[k].1);
                out.push((name, field));
                k += 1;
            }
            let r = Val::Struct(out);
            proof {
                lemma_fields_view_len(out@);
                lemma_fields_view_len(fields@);
                assert forall|i: int| 0 <= i < fields@.len() implies fields_view(out@)[i]
                    == fields_view(fields@)[i] by {
                    lemma_fields_view_index(out@, i);
                    lemma_fields_view_index(fields@, i);
                }
                assert(fields_view(out@) =~= fields_view(fields@));
            }
            r
        },
        Val::Ref(r) => Val::Ref(*r),
        Val::Poison => Val::Poison,
    }
}

/// A deep copy of a sequence of values, preserving each element's view.
/// The ghost parameter ties the sequence to the enclosing value for the
/// termination argument.
fn clone_vals(items: &Vec<Val>, parent: Ghost<Val>) -> (r: Vec<Val>)
    requires
        (parent@ matches Val::Vector(its) && its == *items) || (parent@ matches Val::List(its)
            && its == *items),
    ensures
        r@.len() == items@.len(),
        forall|i: int| 0 <= i < items@.len() ==> (#[trigger] r@[i])@ == items@[i]@,
    decreases parent@, 0int,
{
    let mut out: Vec<Val> = Vec::new();
    let mut k: usize = 0;
    while k < items.len()
        invariant
            (parent@ matches Val::Vector(its) && its == *items) || (parent@ matches Val::List(its)
                && its == *items),
            k <= items@.len(),
            out@.len() == k as int,
            forall|i: int| 0 <= i < k ==> (#[trigger] out@[i])@ == items@[i]@,
        decreases items@.len() - k,
    {
        proof {
            let p = parent@;
            if p is Vector {
                assert(decreases_to!(p => p->Vector_0));
                assert(decreases_to!(p->Vector_0 => p->Vector_0@));
                assert(decreases_to!(p->Vector_0@ => p->Vector_0@[k as int]));
            } else {
                assert(decreases_to!(p => p->List_0));
                assert(decreases_to!(p->List_0 => p->List_0@));
                assert(decreases_to!(p->List_0@ => p->List_0@[k as int]));
            }
            assert(decreases_to!(parent@ => items@[k as int]));
        }
        out.push(clone_val(&items[k]));
        k += 1;
    }
    out
}

impl Clone for Val {
    /// A deep copy with the same abstract view.
    fn clone(&self) -> (r: Val)
        ensures
            r@ == self@,
    {
        clone_val(self)
    }
}


/// The first field with the given name.
pub open spec fn val_field_first(fields: Seq<(u32, Val)>, name: u32) -> Option<Val>
    decreases fields.len(),
{
    if fields.len() == 0 {
        None
    } else if fields[0].0 == name {
        Some(fields[0].1)
    } else {
        val_field_first(fields.drop_first(), name)
    }
}

/// The first field of a struct view with the given name.
pub open spec fn field_first(fields: Seq<(u32, AbsVal)>, name: u32) -> Option<AbsVal>
    decreases fields.len(),
{
    if fields.len() == 0 {
        None
    } else if fields[0].0 == name {
        Some(fields[0].1)
    } else {
        field_first(fields.drop_first(), name)
    }
}

/// The first match in the view is the view of the first match.
pub proof fn lemma_field_first_view(s: Seq<(u32, Val)>, name: u32)
    ensures
        field_first(fields_view(s), name) == (match val_field_first(s, name) {
            Some(v) => Some(val_view(v)),
            None => None::<AbsVal>,
        }),
    decreases s.len(),
{
    lemma_fields_view_len(s);
    if s.len() > 0 {
        lemma_fields_view_index(s, 0);
        lemma_fields_view_len(s.drop_first());
        assert forall|i: int| 0 <= i < s.len() - 1 implies #[trigger] fields_view(s).drop_first()[i]
            == fields_view(s.drop_first())[i] by {
            lemma_fields_view_index(s, i + 1);
            lemma_fields_view_index(s.drop_first(), i);
            assert(s.drop_first()[i] == s[i + 1]);
        }
        assert(fields_view(s).drop_first() =~= fields_view(s.drop_first()));
        lemma_field_first_view(s.drop_first(), name);
    }
}

/// Within a prefix without the name, the first match lies in the rest.
pub proof fn lemma_val_field_first_skip(s: Seq<(u32, Val)>, name: u32, k: int)
    requires
        0 <= k <= s.len(),
        forall|i: int| 0 <= i < k ==> (#[trigger] s[i]).0 != name,
    ensures
        val_field_first(s, name) == val_field_first(s.subrange(k, s.len() as int), name),
    decreases k,
{
    if k == 0 {
        assert(s.subrange(0, s.len() as int) =~= s);
    } else {
        assert(s.drop_first() =~= s.subrange(1, s.len() as int));
        assert forall|i: int| 0 <= i < k - 1 implies (#[trigger] s.drop_first()[i]).0 != name by {
            assert(s.drop_first()[i] == s[i + 1]);
        }
        lemma_val_field_first_skip(s.drop_first(), name, k - 1);
        assert(s.drop_first().subrange(k - 1, s.drop_first().len() as int) =~= s.subrange(
            k,
            s.len() as int,
        ));
    }
}

/// Look up a field of a struct value by name.
#[verifier::loop_isolation(false)]
pub fn struct_field(fields: &Vec<(u32, Val)>, name: u32) -> (r: Option<&Val>)
    ensures
        r is Some <==> exists|i: int| 0 <= i < fields@.len() && (#[trigger] fields@[i]).0 == name,
        match r {
            Some(v) => val_field_first(fields@, name) == Some(*v),
            None => val_field_first(fields@, name) is None,
        },
{
    let mut k: usize = 0;
    while k < fields.len()
        invariant
            k <= fields@.len(),
            forall|i: int| 0 <= i < k ==> (#[trigger] fields@[i]).0 != name,
        decreases fields@.len() - k,
    {
        if fields[k].0 == name {
            proof {
                lemma_val_field_first_skip(fields@, name, k as int);
                let rest = fields@.subrange(k as int, fields@.len() as int);
                assert(rest[0] == fields@[k as int]);
            }
            return Some(&fields[k].1);
        }
        k += 1;
    }
    proof {
        lemma_val_field_first_skip(fields@, name, fields@.len() as int);
    }
    None
}

/// A value that may not have been initialized yet.
#[derive(Clone, Debug)]
pub enum UVal {
    /// Declared but not yet initialized.
    Uninit,
    /// An initialized value.
    Init(Val),
}

} // verus!
