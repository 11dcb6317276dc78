//! S-expressions: the parenthesized prefix syntax of final-state
//! assertions.

use vstd::prelude::*;
use crate::strings::push_char;

verus! {

/// An S-expression: an atom or a parenthesized list.
#[derive(Debug)]
pub enum Sexp {
    /// A bare token.
    Atom(String),
    /// A parenthesized sequence.
    List(Vec<Sexp>),
}


/// The abstract view of an S-expression, with mathematical sequences.
#[verifier::ext_equal]
pub enum AbsSexp {
    Atom(Seq<char>),
    List(Seq<AbsSexp>),
}

/// The abstract view of an S-expression.
pub open spec fn sexp_view(s: Sexp) -> AbsSexp
    decreases s,
    via sexp_view_decreases
{
    match s {
        Sexp::Atom(a) => AbsSexp::Atom(a@),
        Sexp::List(items) => AbsSexp::List(sexps_view(items@)),
    }
}

/// The abstract view of a sequence of S-expressions.
pub open spec fn sexps_view(s: Seq<Sexp>) -> Seq<AbsSexp>
    decreases s,
    via sexps_view_decreases
{
    if s.len() == 0 {
        Seq::empty()
    } else {
        sexps_view(s.subrange(0, s.len() - 1)).push(sexp_view(s[s.len() - 1]))
    }
}

#[via_fn]
proof fn sexp_view_decreases(s: Sexp) {
    match s {
        Sexp::List(items) => {
            assert(decreases_to!(s => s->List_0));
            assert(decreases_to!(s->List_0 => s->List_0@));
        },
        _ => {},
    }
}

#[via_fn]
proof fn sexps_view_decreases(s: Seq<Sexp>) {
    if s.len() > 0 {
        vstd::seq::axiom_seq_len_decreases(s, s.subrange(0, s.len() - 1));
        assert(decreases_to!(s => s[s.len() - 1]));
    }
}

impl View for Sexp {
    type V = AbsSexp;

    open spec fn view(&self) -> AbsSexp {
        sexp_view(*self)
    }
}

/// The view of a sequence of S-expressions has the same length, element by
/// element.
pub broadcast proof fn lemma_sexps_view_len(s: Seq<Sexp>)
    ensures
        (#[trigger] sexps_view(s)).len() == s.len(),
    decreases s,
{
    if s.len() > 0 {
        lemma_sexps_view_len(s.subrange(0, s.len() - 1));
    }
}

/// Each element of the view is the view of the element.
pub broadcast proof fn lemma_sexps_view_index(s: Seq<Sexp>, i: int)
    requires
        0 <= i < s.len(),
    ensures
        #[trigger] sexps_view(s)[i] == sexp_view(s[i]),
    decreases s,
{
    lemma_sexps_view_len(s.subrange(0, s.len() - 1));
    if i < s.len() - 1 {
        lemma_sexps_view_index(s.subrange(0, s.len() - 1), i);
    }
}

/// Whether every atom is ASCII text, as the parser produces.
pub open spec fn sexp_ascii(s: AbsSexp) -> bool
    decreases s,
{
    match s {
        AbsSexp::Atom(a) => vstd::utf8::is_ascii_chars(a),
        AbsSexp::List(items) => forall|i: int|
            0 <= i < items.len() ==> sexp_ascii(#[trigger] items[i]),
    }
}


/// Whether a byte may appear in an atom: anything printable except
/// whitespace and parentheses.
pub open spec fn spec_atom_byte(b: u8) -> bool {
    33 <= b <= 126 && b != 40 && b != 41
}

/// Whether a byte is an atom byte.
fn is_atom_byte(b: u8) -> (r: bool)
    ensures
        r == spec_atom_byte(b),
{
    33 <= b && b <= 126 && b != 40 && b != 41
}

/// Whether a byte is whitespace.
fn is_space(b: u8) -> (r: bool)
    ensures
        r == (b == 32 || b == 9 || b == 10 || b == 13),
{
    b == 32 || b == 9 || b == 10 || b == 13
}

/// The position of the first non-whitespace byte at or after an offset.
fn skip_spaces(buf: &Vec<u8>, pos: usize) -> (r: usize)
    requires
        pos <= buf@.len(),
    ensures
        pos <= r <= buf@.len(),
{
    let mut k = pos;
    while k < buf.len() && is_space(buf[k])
        invariant
            pos <= k <= buf@.len(),
        decreases buf@.len() - k,
    {
        k += 1;
    }
    k
}

/// Parse one S-expression from a byte buffer starting at an offset; on
/// success the new offset follows the parsed expression. The input must be
/// ASCII text.
#[verifier::loop_isolation(false)]
fn parse_at(buf: &Vec<u8>, pos: usize, depth: u32) -> (r: Option<(Sexp, usize)>)
    requires
        pos <= buf@.len(),
    ensures
        r matches Some(p) ==> pos < p.1 <= buf@.len() && sexp_ascii(p.0@),
    decreases buf@.len() - pos, depth,
{
    // skip whitespace
    let k = skip_spaces(buf, pos);
    if k >= buf.len() {
        return None;
    }
    if buf[k] == 40 {
        // a list: parse items until the closing parenthesis
        if depth == 0 {
            return None;
        }
        let mut items: Vec<Sexp> = Vec::new();
        let mut j = k + 1;
        loop
            invariant
                k < j <= buf@.len(),
                forall|i: int| 0 <= i < items@.len() ==> sexp_ascii(sexp_view(#[trigger] items@[i])),
            decreases buf@.len() - j,
        {
            // skip whitespace before the next item or the close
            let j2 = skip_spaces(buf, j);
            if j2 >= buf.len() {
                return None;
            }
            if buf[j2] == 41 {
                proof {
                    lemma_sexps_view_len(items@);
                    assert forall|i: int| 0 <= i < sexps_view(items@).len() implies sexp_ascii(
                        #[trigger] sexps_view(items@)[i],
                    ) by {
                        lemma_sexps_view_index(items@, i);
                    }
                }
                return Some((Sexp::List(items), j2 + 1));
            }
            match parse_at(buf, j2, depth - 1) {
                Some((item, next)) => {
                    items.push(item);
                    j = next;
                },
                None => {
                    return None;
                },
            }
        }
    } else if is_atom_byte(buf[k]) {
        let mut j = k;
        let mut atom = String::new();
        while j < buf.len() && is_atom_byte(buf[j])
            invariant
                k <= j <= buf@.len(),
                forall|i: int| 0 <= i < atom@.len() ==> '\0' <= #[trigger] atom@[i] <= '\u{7f}',
            decreases buf@.len() - j,
        {
            let b = buf[j];
            if b > 126 {
                return None;
            }
            push_char(&mut atom, byte_to_char(b));
            j += 1;
        }
        Some((Sexp::Atom(atom), j))
    } else {
        None
    }
}

/// The character of an ASCII byte.
fn byte_to_char(b: u8) -> (c: char)
    requires
        b <= 126,
    ensures
        c as u32 == b,
{
    b as char
}

/// Parse a whole S-expression: the text must hold exactly one expression,
/// followed only by whitespace. Every atom of the result is ASCII.
pub fn parse_sexp(text: &str) -> (r: Option<Sexp>)
    ensures
        r matches Some(s) ==> sexp_ascii(s@),
{
    let buf = text.as_bytes_vec();
    match parse_at(&buf, 0, 64) {
        Some((sexp, mut k)) => {
            while k < buf.len()
                invariant
                    k <= buf@.len(),
                decreases buf@.len() - k,
            {
                let b = buf[k];
                if !(b == 32 || b == 9 || b == 10 || b == 13) {
                    return None;
                }
                k += 1;
            }
            Some(sexp)
        },
        None => None,
    }
}

/// The numeral value of an S-expression: the numeral of its atom text.
pub open spec fn spec_sexp_u64(s: AbsSexp) -> Option<u64> {
    match s {
        AbsSexp::Atom(t) => spec_atom_u64(t),
        AbsSexp::List(_) => None,
    }
}

/// Whether an S-expression is a list whose head atom is the given operator
/// with at least the given number of operands.
pub open spec fn spec_is_fn(s: AbsSexp, name: Seq<char>, args: int) -> bool {
    &&& s matches AbsSexp::List(items)
    &&& items.len() >= 1
    &&& items.len() - 1 >= args
    &&& items[0] matches AbsSexp::Atom(a)
    &&& a == name
}

impl Sexp {
    /// The text of an atom.
    pub fn as_str(&self) -> (r: Option<&String>)
        ensures
            match r {
                Some(s) => self@ == AbsSexp::Atom(s@),
                None => self@ is List,
            },
    {
        match self {
            Sexp::Atom(s) => Some(s),
            Sexp::List(_) => None,
        }
    }

    /// The numeric value of an atom: hexadecimal under a sharp-x prefix,
    /// else decimal.
    pub fn as_u64(&self) -> (r: Option<u64>)
        ensures
            r == spec_sexp_u64(self@),
    {
        match self {
            Sexp::Atom(s) => parse_u64_atom(s),
            Sexp::List(_) => None,
        }
    }

    /// The numeric value of an atom as a size.
    pub fn as_usize(&self) -> (r: Option<usize>)
        ensures
            match spec_sexp_u64(self@) {
                Some(n) => r == if n <= usize::MAX as u64 {
                    Some(n as usize)
                } else {
                    None::<usize>
                },
                None => r is None,
            },
    {
        match self.as_u64() {
            Some(n) => {
                if n <= usize::MAX as u64 {
                    Some(n as usize)
                } else {
                    None
                }
            },
            None => None,
        }
    }

    /// Whether this is a list whose head atom is the given operator with at
    /// least the given number of operands.
    pub fn is_fn(&self, name: &str, args: usize) -> (r: bool)
        ensures
            r == spec_is_fn(self@, name@, args as int),
    {
        match self {
            Sexp::List(items) => {
                proof {
                    lemma_sexps_view_len(items@);
                }
                if items.len() == 0 || items.len() - 1 < args {
                    return false;
                }
                proof {
                    lemma_sexps_view_index(items@, 0);
                }
                match &items[0] {
                    Sexp::Atom(s) => {
                        let n = name.to_owned();
                        *s == n
                    },
                    _ => false,
                }
            },
            _ => false,
        }
    }
}


/// The numeral value of atom text: hexadecimal digits under a `#x` or `0x`
/// prefix, else decimal digits; the digits must be non-empty, all of the
/// base, and the value must fit in 64 bits.
pub open spec fn spec_atom_u64(t: Seq<char>) -> Option<u64> {
    let hex = t.len() >= 2 && (t[0] == '#' || t[0] == '0') && t[1] == 'x';
    let digits = if hex {
        t.subrange(2, t.len() as int)
    } else {
        t
    };
    if hex {
        if digits.len() == 0 || !crate::config::all_hex_digits(digits) || crate::config::hex_value(
            digits,
        ) > u64::MAX {
            None
        } else {
            Some(crate::config::hex_value(digits) as u64)
        }
    } else {
        if digits.len() == 0 || !crate::strings::all_dec_digits(digits)
            || crate::strings::dec_value(digits) > u64::MAX {
            None
        } else {
            Some(crate::strings::dec_value(digits) as u64)
        }
    }
}

/// Parse a numeral: hexadecimal under `#x` or `0x`, else decimal.
#[verifier::loop_isolation(false)]
pub fn parse_u64_atom(s: &String) -> (r: Option<u64>)
    ensures
        r == spec_atom_u64(s@),
{
    let len = s.as_str().unicode_len();
    let hex = if len >= 2 && ((s.as_str().get_char(0) as u32) == 35 || (s.as_str().get_char(0)
        as u32) == 48) {
        (s.as_str().get_char(1) as u32) == 120
    } else {
        false
    };
    proof {
        assert('#' as u32 == 35 && '0' as u32 == 48 && 'x' as u32 == 120);
        if s@.len() >= 2 {
            assert(hex == ((s@[0] == '#' || s@[0] == '0') && s@[1] == 'x'));
        }
    }
    let start: usize = if hex {
        2
    } else {
        0
    };
    if start >= len {
        return None;
    }
    let ghost digits = s@.subrange(start as int, s@.len() as int);
    proof {
        if !hex {
            assert(digits =~= s@);
        }
    }
    let mut acc: u64 = 0;
    let mut k = start;
    while k < len
        invariant
            start <= k <= len,
            forall|i: int|
                start <= i < k ==> (if hex {
                    crate::config::is_hex_digit(#[trigger] s@[i])
                } else {
                    crate::strings::is_dec_digit(s@[i])
                }),
            acc == if hex {
                crate::config::hex_value(s@.subrange(start as int, k as int))
            } else {
                crate::strings::dec_value(s@.subrange(start as int, k as int))
            },
        decreases len - k,
    {
        let c = s.as_str().get_char(k);
        let cu = c as u32;
        let d: u32 = if 48 <= cu && cu <= 57 {
            cu - 48
        } else if hex && 97 <= cu && cu <= 102 {
            cu - 87
        } else if hex && 65 <= cu && cu <= 70 {
            cu - 55
        } else {
            proof {
                assert('0' as u32 == 48 && '9' as u32 == 57 && 'a' as u32 == 97 && 'f' as u32
                    == 102 && 'A' as u32 == 65 && 'F' as u32 == 70);
                assert(digits[k - start] == s@[k as int]);
                if hex {
                    assert(!crate::config::is_hex_digit(s@[k as int]));
                    assert(!crate::config::all_hex_digits(digits));
                } else {
                    assert(!crate::strings::is_dec_digit(s@[k as int]));
                    assert(!crate::strings::all_dec_digits(digits));
                }
            }
            return None;
        };
        proof {
            assert('0' as u32 == 48 && '9' as u32 == 57 && 'a' as u32 == 97 && 'f' as u32 == 102
                && 'A' as u32 == 65 && 'F' as u32 == 70);
            let p1 = s@.subrange(start as int, k as int + 1);
            assert(p1.drop_last() =~= s@.subrange(start as int, k as int));
            assert(p1.last() == s@[k as int]);
            if hex {
                assert(d == crate::config::hex_digit_value(s@[k as int]));
            } else {
                assert(d == s@[k as int] as int - '0' as int);
            }
        }
        let base: u64 = if hex {
            16
        } else {
            10
        };
        acc = match acc.checked_mul(base) {
            Some(m) => match m.checked_add(d as u64) {
                Some(a) => a,
                None => {
                    proof {
                        crate::config::lemma_number_overflow(
                            s@,
                            digits,
                            start as int,
                            k as int,
                            hex,
                        );
                    }
                    return None;
                },
            },
            None => {
                proof {
                    crate::config::lemma_number_overflow(s@, digits, start as int, k as int, hex);
                }
                return None;
            },
        };
        k += 1;
    }
    proof {
        assert(s@.subrange(start as int, len as int) =~= digits);
    }
    Some(acc)
}

/// Render an S-expression back to text: atoms separated by single spaces
/// inside parentheses.
#[verifier::loop_isolation(false)]

/// The textual rendering of an S-expression: an atom is its text, a list
/// is its rendered items between parentheses, separated by single spaces.
pub open spec fn sexp_text(s: AbsSexp) -> Seq<char>
    decreases s, 0int, 1int,
    via sexp_text_decreases
{
    match s {
        AbsSexp::Atom(a) => a,
        AbsSexp::List(items) => seq!['('] + sexps_text(items, 0) + seq![')'],
    }
}

/// The rendering of a list's items from an index on, each item after the
/// first preceded by one space.
pub open spec fn sexps_text(items: Seq<AbsSexp>, k: int) -> Seq<char>
    decreases items, items.len() - k, 0int,
    via sexps_text_decreases
{
    if k < 0 || k >= items.len() {
        Seq::empty()
    } else {
        (if k > 0 {
            seq![' ']
        } else {
            Seq::empty()
        }) + sexp_text(items[k]) + sexps_text(items, k + 1)
    }
}

#[via_fn]
proof fn sexp_text_decreases(s: AbsSexp) {
    match s {
        AbsSexp::List(items) => {
            assert(decreases_to!(s => s->List_0));
        },
        _ => {},
    }
}

#[via_fn]
proof fn sexps_text_decreases(items: Seq<AbsSexp>, k: int) {
    if 0 <= k < items.len() {
        assert(decreases_to!(items => items[k]));
    }
}

#[verifier::loop_isolation(false)]
pub fn sexp_to_string(sexp: &Sexp) -> (r: String)
    ensures
        r@ == sexp_text(sexp@),
    decreases *sexp,
{
    match sexp {
        Sexp::Atom(s) => s.clone(),
        Sexp::List(items) => {
            proof {
                lemma_sexps_view_len(items@);
                assert forall|i: int| 0 <= i < items@.len() implies #[trigger] sexps_view(
                    items@,
                )[i] == sexp_view(items@[i]) by {
                    lemma_sexps_view_index(items@, i);
                }
            }
            let ghost iv = sexps_view(items@);
            let mut out = String::new();
            push_char(&mut out, '(');
            proof {
                assert(out@ =~= seq!['(']);
                assert(seq!['('] + sexps_text(iv, 0) =~= out@ + sexps_text(iv, 0));
            }
            let mut k: usize = 0;
            while k < items.len()
                invariant
                    *sexp matches Sexp::List(its) && its == *items,
                    k <= items@.len(),
                    seq!['('] + sexps_text(iv, 0) == out@ + sexps_text(iv, k as int),
                decreases items@.len() - k,
            {
                let ghost before = out@;
                if k > 0 {
                    push_char(&mut out, ' ');
                }
                proof {
                    let e = *sexp;
                    assert(decreases_to!(e => e->List_0));
                    assert(decreases_to!(e->List_0 => e->List_0@));
                    assert(decreases_to!(e->List_0@ => e->List_0@[k as int]));
                }
                let inner = sexp_to_string(&items[k]);
                out.append(inner.as_str());
                proof {
                    let sep: Seq<char> = if k > 0 {
                        seq![' ']
                    } else {
                        Seq::empty()
                    };
                    assert(out@ =~= before + sep + sexp_text(iv[k as int]));
                    assert(before + sexps_text(iv, k as int) =~= before + (sep + sexp_text(
                        iv[k as int],
                    ) + sexps_text(iv, k as int + 1)));
                    assert(before + (sep + sexp_text(iv[k as int]) + sexps_text(iv, k as int + 1))
                        =~= (before + sep + sexp_text(iv[k as int])) + sexps_text(
                        iv,
                        k as int + 1,
                    ));
                }
                k += 1;
            }
            proof {
                assert(sexps_text(iv, items@.len() as int) =~= Seq::<char>::empty());
                assert(out@ + Seq::<char>::empty() =~= out@);
            }
            push_char(&mut out, ')');
            proof {
                assert(out@ =~= seq!['('] + sexps_text(iv, 0) + seq![')']);
            }
            out
        },
    }
}

} // verus!
