//! The declarative-configuration value model.
//!
//! The configuration and litmus files are parsed by the `toml` crate; the
//! parse result is converted, one variant for one variant, into
//! [`TomlValue`], which holds plain values the verified logic can read.
//! Floats and datetimes, which no key of ours uses, map to [`TomlValue::Other`].

use vstd::prelude::*;

verus! {

/// A parsed configuration value: the shapes the configuration grammar
/// offers, over plain values.
#[derive(Debug)]
pub enum TomlValue {
    /// A text value.
    Text(String),
    /// An integer value.
    Integer(i64),
    /// A boolean value.
    Boolean(bool),
    /// An array of values.
    Array(Vec<TomlValue>),
    /// A table of key-value pairs, in the parser's order.
    Table(Vec<(String, TomlValue)>),
    /// A value of a kind no key of ours uses.
    Other,
}

/// The abstract view of a configuration value, with mathematical
/// sequences in place of vectors and strings.
#[verifier::ext_equal]
pub enum AbsToml {
    Text(Seq<char>),
    Integer(i64),
    Boolean(bool),
    Array(Seq<AbsToml>),
    Table(Seq<(Seq<char>, AbsToml)>),
    Other,
}

/// The abstract view of a configuration value.
pub open spec fn toml_view(v: TomlValue) -> AbsToml
    decreases v,
    via toml_view_decreases
{
    match v {
        TomlValue::Text(s) => AbsToml::Text(s@),
        TomlValue::Integer(i) => AbsToml::Integer(i),
        TomlValue::Boolean(b) => AbsToml::Boolean(b),
        TomlValue::Array(items) => AbsToml::Array(tomls_view(items@)),
        TomlValue::Table(entries) => AbsToml::Table(toml_table_view(entries@)),
        TomlValue::Other => AbsToml::Other,
    }
}

/// The view of a sequence of configuration values.
pub open spec fn tomls_view(s: Seq<TomlValue>) -> Seq<AbsToml>
    decreases s,
    via tomls_view_decreases
{
    if s.len() == 0 {
        Seq::empty()
    } else {
        tomls_view(s.subrange(0, s.len() - 1)).push(toml_view(s[s.len() - 1]))
    }
}

/// The view of a table of configuration values.
pub open spec fn toml_table_view(s: Seq<(String, TomlValue)>) -> Seq<(Seq<char>, AbsToml)>
    decreases s,
    via toml_table_view_decreases
{
    if s.len() == 0 {
        Seq::empty()
    } else {
        toml_table_view(s.subrange(0, s.len() - 1)).push(
            (s[s.len() - 1].0@, toml_view(s[s.len() - 1].1)),
        )
    }
}

#[via_fn]
proof fn toml_view_decreases(v: TomlValue) {
    match v {
        TomlValue::Array(items) => {
            assert(decreases_to!(v => v->Array_0));
            assert(decreases_to!(v->Array_0 => v->Array_0@));
        },
        TomlValue::Table(entries) => {
            assert(decreases_to!(v => v->Table_0));
            assert(decreases_to!(v->Table_0 => v->Table_0@));
        },
        _ => {},
    }
}

#[via_fn]
proof fn tomls_view_decreases(s: Seq<TomlValue>) {
    if s.len() > 0 {
        vstd::seq::axiom_seq_len_decreases(s, s.subrange(0, s.len() - 1));
        assert(decreases_to!(s => s[s.len() - 1]));
    }
}

#[via_fn]
proof fn toml_table_view_decreases(s: Seq<(String, TomlValue)>) {
    if s.len() > 0 {
        vstd::seq::axiom_seq_len_decreases(s, s.subrange(0, s.len() - 1));
        assert(decreases_to!(s => s[s.len() - 1]));
    }
}

impl View for TomlValue {
    type V = AbsToml;

    open spec fn view(&self) -> AbsToml {
        toml_view(*self)
    }
}

/// The view of a value sequence has the same length, element by element.
pub broadcast proof fn lemma_tomls_view_len(s: Seq<TomlValue>)
    ensures
        (#[trigger] tomls_view(s)).len() == s.len(),
    decreases s,
{
    if s.len() > 0 {
        lemma_tomls_view_len(s.subrange(0, s.len() - 1));
    }
}

/// Each element of the view of a value sequence is the view of the
/// corresponding element.
pub broadcast proof fn lemma_tomls_view_index(s: Seq<TomlValue>, i: int)
    requires
        0 <= i < s.len(),
    ensures
        #[trigger] tomls_view(s)[i] == toml_view(s[i]),
    decreases s,
{
    lemma_tomls_view_len(s.subrange(0, s.len() - 1));
    if i < s.len() - 1 {
        lemma_tomls_view_index(s.subrange(0, s.len() - 1), i);
    }
}

/// The view of a table has the same length, entry by entry.
pub broadcast proof fn lemma_toml_table_view_len(s: Seq<(String, TomlValue)>)
    ensures
        (#[trigger] toml_table_view(s)).len() == s.len(),
    decreases s,
{
    if s.len() > 0 {
        lemma_toml_table_view_len(s.subrange(0, s.len() - 1));
    }
}

/// Each entry of the view of a table pairs the key's view with the value's
/// view.
pub broadcast proof fn lemma_toml_table_view_index(s: Seq<(String, TomlValue)>, i: int)
    requires
        0 <= i < s.len(),
    ensures
        #[trigger] toml_table_view(s)[i] == (s[i].0@, toml_view(s[i].1)),
    decreases s,
{
    lemma_toml_table_view_len(s.subrange(0, s.len() - 1));
    if i < s.len() - 1 {
        lemma_toml_table_view_index(s.subrange(0, s.len() - 1), i);
    }
}

/// What the `toml` crate parses a text into, under the conversion to
/// [`TomlValue`]: the result depends on the text alone.
pub uninterp spec fn toml_of(s: Seq<char>) -> Option<AbsToml>;

/// A table has an entry for a key.
pub open spec fn table_has_key(entries: Seq<(Seq<char>, AbsToml)>, key: Seq<char>) -> bool {
    exists|i: int| 0 <= i < entries.len() && (#[trigger] entries[i]).0 == key
}

/// The value of the first entry of a table with the given key.
pub open spec fn table_first(entries: Seq<(Seq<char>, AbsToml)>, key: Seq<char>) -> Option<
    AbsToml,
>
    decreases entries.len(),
{
    if entries.len() == 0 {
        None
    } else if entries[0].0 == key {
        Some(entries[0].1)
    } else {
        table_first(entries.drop_first(), key)
    }
}

/// The first match exists exactly when some entry has the key.
pub proof fn lemma_table_first_some(entries: Seq<(Seq<char>, AbsToml)>, key: Seq<char>)
    ensures
        table_first(entries, key) is Some <==> table_has_key(entries, key),
    decreases entries.len(),
{
    if entries.len() > 0 {
        lemma_table_first_some(entries.drop_first(), key);
        if entries[0].0 == key {
        } else {
            assert forall|i: int|
                0 < i < entries.len() && (#[trigger] entries[i]).0 == key implies table_has_key(
                entries.drop_first(),
                key,
            ) by {
                assert(entries.drop_first()[i - 1] == entries[i]);
            }
            if table_has_key(entries.drop_first(), key) {
                let rest = entries.drop_first();
                let i = choose|i: int| 0 <= i < rest.len() && (#[trigger] rest[i]).0 == key;
                assert(entries[i + 1] == rest[i]);
            }
        }
    }
}

/// Within a prefix without the key, the first match lies in the rest.
proof fn lemma_table_first_skip(entries: Seq<(Seq<char>, AbsToml)>, key: Seq<char>, k: int)
    requires
        0 <= k <= entries.len(),
        forall|i: int| 0 <= i < k ==> (#[trigger] entries[i]).0 != key,
    ensures
        table_first(entries, key) == table_first(entries.subrange(k, entries.len() as int), key),
    decreases k,
{
    if k == 0 {
        assert(entries.subrange(0, entries.len() as int) =~= entries);
    } else {
        assert(entries.drop_first() =~= entries.subrange(1, entries.len() as int));
        assert forall|i: int|
            0 <= i < k - 1 implies (#[trigger] entries.drop_first()[i]).0 != key by {
            assert(entries.drop_first()[i] == entries[i + 1]);
        }
        lemma_table_first_skip(entries.drop_first(), key, k - 1);
        assert(entries.drop_first().subrange(k - 1, entries.drop_first().len() as int)
            =~= entries.subrange(k, entries.len() as int));
    }
}

/// Look up a key of a table value: the first entry with that key.
#[verifier::loop_isolation(false)]
pub fn toml_get<'a>(v: &'a TomlValue, key: &str) -> (r: Option<&'a TomlValue>)
    ensures
        v@ matches AbsToml::Table(entries) ==> (match r {
            Some(f) => table_first(entries, key@) == Some(f@),
            None => table_first(entries, key@) is None,
        }),
        !(v@ is Table) ==> r is None,
{
    match v {
        TomlValue::Table(entries) => {
            proof {
                lemma_toml_table_view_len(entries@);
            }
            let key_owned = key.to_owned();
            let mut k: usize = 0;
            while k < entries.len()
                invariant
                    k <= entries@.len(),
                    toml_table_view(entries@).len() == entries@.len(),
                    forall|i: int|
                        0 <= i < k ==> (#[trigger] toml_table_view(entries@)[i]).0 != key@,
                decreases entries@.len() - k,
            {
                proof {
                    lemma_toml_table_view_index(entries@, k as int);
                }
                if entries[k].0 == key_owned {
                    proof {
                        let tv = toml_table_view(entries@);
                        lemma_table_first_skip(tv, key@, k as int);
                        let rest = tv.subrange(k as int, tv.len() as int);
                        assert(rest[0] == tv[k as int]);
                        assert(rest.len() > 0 && rest[0].0 == key@);
                    }
                    return Some(&entries[k].1);
                }
                k += 1;
            }
            proof {
                let tv = toml_table_view(entries@);
                lemma_table_first_skip(tv, key@, tv.len() as int);
                assert(tv.subrange(tv.len() as int, tv.len() as int).len() == 0);
            }
            None
        },
        _ => None,
    }
}

/// The text of a text value.
pub fn toml_as_str<'a>(v: &'a TomlValue) -> (r: Option<&'a String>)
    ensures
        match v@ {
            AbsToml::Text(s) => r matches Some(t) && t@ == s,
            _ => r is None,
        },
{
    match v {
        TomlValue::Text(s) => Some(s),
        _ => None,
    }
}

/// The declarative-configuration value type of the `toml` crate, declared
/// so the conversion below can carry it.
#[verifier::external_type_specification]
#[verifier::external_body]
pub struct ExTomlValue(toml::Value);

/// Convert a parsed `toml` value into the library's model, one variant for
/// one variant; floats and datetimes, which no key of ours uses, become
/// [`TomlValue::Other`].
///
/// Relies on the `toml` crate's `Value` enum having exactly these
/// variants.
#[verifier::external_body]
fn convert_toml(v: toml::Value) -> (r: TomlValue)
    ensures
        r is Text || r is Integer || r is Boolean || r is Array || r is Table || r is Other,
{
    match v {
        toml::Value::String(s) => TomlValue::Text(s),
        toml::Value::Integer(i) => TomlValue::Integer(i),
        toml::Value::Boolean(b) => TomlValue::Boolean(b),
        toml::Value::Array(a) => TomlValue::Array(a.into_iter().map(convert_toml).collect()),
        toml::Value::Table(t) => TomlValue::Table(
            t.into_iter().map(|(k, v)| (k, convert_toml(v))).collect(),
        ),
        toml::Value::Float(_) => TomlValue::Other,
        toml::Value::Datetime(_) => TomlValue::Other,
    }
}

/// Parse declarative-configuration text into its top-level table.
///
/// Relies on `toml::Table`'s `FromStr` parser for the grammar; the parse
/// of given text depends on the text alone, and its converted form is
/// named [`toml_of`].
#[verifier::external_body]
pub fn parse_toml(contents: &str) -> (r: Option<TomlValue>)
    ensures
        match r {
            Some(v) => toml_of(contents@) == Some(v@),
            None => toml_of(contents@) is None,
        },
{
    match contents.parse::<toml::Table>() {
        Ok(t) => Some(
            TomlValue::Table(t.into_iter().map(|(k, v)| (k, convert_toml(v))).collect()),
        ),
        Err(_) => None,
    }
}

} // verus!
