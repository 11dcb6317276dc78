//! Verified text helpers: rendering integers and bit vectors, parsing
//! decimal and hexadecimal numbers, and prefix tests.

use vstd::prelude::*;
use crate::bitvector::Sbits;

verus! {

/// Append one character to a string.
///
/// Relies on `String::push`: it appends exactly the given character.
#[verifier::external_body]
pub fn push_char(s: &mut String, c: char)
    ensures
        final(s)@ == old(s)@.push(c),
{
    s.push(c);
}

/// The character for a value below sixteen.
pub open spec fn spec_digit(d: int) -> char {
    if d == 0 {
        '0'
    } else if d == 1 {
        '1'
    } else if d == 2 {
        '2'
    } else if d == 3 {
        '3'
    } else if d == 4 {
        '4'
    } else if d == 5 {
        '5'
    } else if d == 6 {
        '6'
    } else if d == 7 {
        '7'
    } else if d == 8 {
        '8'
    } else if d == 9 {
        '9'
    } else if d == 10 {
        'a'
    } else if d == 11 {
        'b'
    } else if d == 12 {
        'c'
    } else if d == 13 {
        'd'
    } else if d == 14 {
        'e'
    } else {
        'f'
    }
}

/// The character for a digit value.
pub fn digit_char(d: u8) -> (c: char)
    requires
        d < 16,
    ensures
        c == spec_digit(d as int),
{
    if d == 0 {
        '0'
    } else if d == 1 {
        '1'
    } else if d == 2 {
        '2'
    } else if d == 3 {
        '3'
    } else if d == 4 {
        '4'
    } else if d == 5 {
        '5'
    } else if d == 6 {
        '6'
    } else if d == 7 {
        '7'
    } else if d == 8 {
        '8'
    } else if d == 9 {
        '9'
    } else if d == 10 {
        'a'
    } else if d == 11 {
        'b'
    } else if d == 12 {
        'c'
    } else if d == 13 {
        'd'
    } else if d == 14 {
        'e'
    } else {
        'f'
    }
}

/// The decimal digits of a number, most significant first.
pub open spec fn dec_digits_u128(n: u128) -> Seq<char>
    decreases n,
{
    if n < 10 {
        seq![spec_digit(n as int)]
    } else {
        dec_digits_u128(n / 10).push(spec_digit((n % 10) as int))
    }
}

/// The decimal digits of a signed number: a minus sign and the digits of
/// the magnitude.
pub open spec fn dec_digits_i128(x: i128) -> Seq<char> {
    if x < 0 {
        seq!['-'] + dec_digits_u128((-(x as int)) as u128)
    } else {
        dec_digits_u128(x as u128)
    }
}

/// The hexadecimal digits of a number, most significant first.
pub open spec fn hex_digits_u128(n: u128) -> Seq<char>
    decreases n,
{
    if n < 16 {
        seq![spec_digit(n as int)]
    } else {
        hex_digits_u128(n / 16).push(spec_digit((n % 16) as int))
    }
}

/// The hexadecimal rendering of an integer with a base prefix; a negative
/// integer shows its 128-bit two's complement bits, as machine hexadecimal
/// output does.
pub open spec fn hex_digits_i128(x: i128) -> Seq<char> {
    seq!['0', 'x'] + hex_digits_u128((x as u128) as u128)
}

/// Render a number in decimal.
pub fn dec_string_u128(n: u128) -> (s: String)
    ensures
        s@ == dec_digits_u128(n),
    decreases n,
{
    if n < 10 {
        let mut s = String::new();
        push_char(&mut s, digit_char(n as u8));
        proof {
            assert(s@ =~= dec_digits_u128(n));
        }
        s
    } else {
        let mut s = dec_string_u128(n / 10);
        push_char(&mut s, digit_char((n % 10) as u8));
        s
    }
}

/// Render a signed number in decimal.
pub fn dec_string_i128(x: i128) -> (s: String)
    ensures
        s@ == dec_digits_i128(x),
{
    if x < 0 {
        let mut s = String::new();
        push_char(&mut s, '-');
        let mag: u128 = if x == i128::MIN {
            0x80000000000000000000000000000000u128
        } else {
            (-x) as u128
        };
        let digits = dec_string_u128(mag);
        s.append(digits.as_str());
        proof {
            assert(s@ =~= dec_digits_i128(x));
        }
        s
    } else {
        dec_string_u128(x as u128)
    }
}

/// Render a 32-bit number in decimal.
pub fn dec_string_u32(n: u32) -> (s: String)
    ensures
        s@ == dec_digits_u128(n as u128),
{
    dec_string_u128(n as u128)
}

/// Render a number in hexadecimal.
pub fn hex_string_u128(n: u128) -> (s: String)
    ensures
        s@ == hex_digits_u128(n),
    decreases n,
{
    if n < 16 {
        let mut s = String::new();
        push_char(&mut s, digit_char(n as u8));
        proof {
            assert(s@ =~= hex_digits_u128(n));
        }
        s
    } else {
        let mut s = hex_string_u128(n / 16);
        push_char(&mut s, digit_char((n % 16) as u8));
        s
    }
}

/// Render an integer in hexadecimal with a base prefix, using the two's
/// complement bits for a negative integer.
pub fn hex_string_i128(x: i128) -> (s: String)
    ensures
        s@ == hex_digits_i128(x),
{
    let mut s = String::new();
    push_char(&mut s, '0');
    push_char(&mut s, 'x');
    let digits = hex_string_u128(x as u128);
    s.append(digits.as_str());
    proof {
        assert(s@ =~= hex_digits_i128(x));
    }
    s
}

/// Render a 64-bit number in hexadecimal without a prefix.
pub fn hex_string_u64(n: u64) -> (s: String)
    ensures
        s@ == hex_digits_u128(n as u128),
{
    hex_string_u128(n as u128)
}

/// Whether a character is a decimal digit.
pub open spec fn is_dec_digit(c: char) -> bool {
    '0' <= c <= '9'
}

/// The numeric value of a sequence of decimal digits, most significant
/// first.
pub open spec fn dec_value(s: Seq<char>) -> int
    decreases s.len(),
{
    if s.len() == 0 {
        0
    } else {
        dec_value(s.drop_last()) * 10 + (s.last() as int - '0' as int)
    }
}

/// Whether every character of a sequence is a decimal digit.
pub open spec fn all_dec_digits(s: Seq<char>) -> bool {
    forall|i: int| 0 <= i < s.len() ==> is_dec_digit(#[trigger] s[i])
}

/// The parse of a decimal integer with an optional sign: the digits must
/// be non-empty, all decimal, and the value must fit.
pub open spec fn spec_parse_i128(t: Seq<char>) -> Option<i128> {
    let neg = t.len() > 0 && t[0] == '-';
    let digits = if neg {
        t.subrange(1, t.len() as int)
    } else {
        t
    };
    if digits.len() == 0 || !all_dec_digits(digits) {
        None
    } else {
        let v = if neg {
            -dec_value(digits)
        } else {
            dec_value(digits)
        };
        if i128::MIN <= v <= i128::MAX {
            Some(v as i128)
        } else {
            None
        }
    }
}

/// All-digit text has a value at least that of any prefix.
proof fn lemma_dec_value_prefix_le(s: Seq<char>, j: int)
    requires
        0 <= j <= s.len(),
        forall|i: int| 0 <= i < s.len() ==> is_dec_digit(#[trigger] s[i]),
    ensures
        0 <= dec_value(s.subrange(0, j)),
        dec_value(s.subrange(0, j)) <= dec_value(s),
    decreases s.len() - j,
{
    if j == 0 {
        assert(dec_value(s.subrange(0, 0)) == 0);
        lemma_dec_value_nonneg(s, s.len() as int);
        assert(s.subrange(0, s.len() as int) =~= s);
    } else if j == s.len() {
        assert(s.subrange(0, j) =~= s);
        lemma_dec_value_nonneg(s, j);
    } else {
        lemma_dec_value_prefix_le(s, j + 1);
        lemma_dec_value_nonneg(s, j);
        let p = s.subrange(0, j);
        let q = s.subrange(0, j + 1);
        assert(q.drop_last() =~= p);
        assert(dec_value(q) == dec_value(p) * 10 + (q.last() as int - '0' as int));
        assert(dec_value(p) * 10 >= dec_value(p)) by (nonlinear_arith)
            requires
                dec_value(p) >= 0,
        ;
    }
}

/// The value of all-digit text is never negative.
proof fn lemma_dec_value_nonneg(s: Seq<char>, j: int)
    requires
        0 <= j <= s.len(),
        forall|i: int| 0 <= i < j ==> is_dec_digit(#[trigger] s[i]),
    ensures
        0 <= dec_value(s.subrange(0, j)),
    decreases j,
{
    if j > 0 {
        lemma_dec_value_nonneg(s, j - 1);
        let p = s.subrange(0, j);
        assert(p.drop_last() =~= s.subrange(0, j - 1));
        assert(dec_value(s.subrange(0, j - 1)) * 10 >= 0) by (nonlinear_arith)
            requires
                dec_value(s.subrange(0, j - 1)) >= 0,
        ;
    }
}

/// Parse a decimal integer with an optional sign.
#[verifier::loop_isolation(false)]
pub fn parse_i128_decimal(t: &String) -> (r: Option<i128>)
    ensures
        r == spec_parse_i128(t@),
{
    let len = t.as_str().unicode_len();
    let mut start: usize = 0;
    let neg = if len > 0 && (t.as_str().get_char(0) as u32) == 45 {
        start = 1;
        true
    } else {
        false
    };
    proof {
        assert('-' as u32 == 45);
        if t@.len() > 0 {
            assert(neg == (t@[0] == '-'));
        }
    }
    let ghost digits = if neg {
        t@.subrange(1, t@.len() as int)
    } else {
        t@
    };
    proof {
        assert(digits =~= t@.subrange(start as int, t@.len() as int));
    }
    if start >= len {
        return None;
    }
    // accumulate the magnitude negated, so that the minimum value parses
    let mut acc: i128 = 0;
    let mut k: usize = start;
    while k < len
        invariant
            start <= k <= len,
            forall|i: int| start <= i < k ==> is_dec_digit(#[trigger] t@[i]),
            acc == -dec_value(t@.subrange(start as int, k as int)),
            acc <= 0,
        decreases len - k,
    {
        let c = t.as_str().get_char(k);
        let cu = c as u32;
        if !(48 <= cu && cu <= 57) {
            proof {
                assert('0' as u32 == 48 && '9' as u32 == 57);
                assert(!is_dec_digit(c));
                let idx = k - start;
                assert(digits[idx as int] == t@[k as int]);
                assert(!is_dec_digit(digits[idx as int]));
                assert(!all_dec_digits(digits));
                assert(spec_parse_i128(t@) is None);
            }
            return None;
        }
        let d = cu - 48;
        proof {
            assert('0' as u32 == 48 && '9' as u32 == 57);
            assert(is_dec_digit(c));
            assert(d == c as int - '0' as int);
        }
        let ghost prefix = t@.subrange(start as int, k as int);
        let ghost prefix1 = t@.subrange(start as int, k as int + 1);
        proof {
            assert(prefix1.drop_last() =~= prefix);
            assert(prefix1.last() == t@[k as int]);
        }
        let step = match acc.checked_mul(10) {
            Some(m) => m.checked_sub(d as i128),
            None => None,
        };
        match step {
            Some(next) => {
                acc = next;
            },
            None => {
                // the magnitude can no longer fit in an `i128`
                proof {
                    lemma_parse_overflow(t@, digits, start as int, k as int, acc as int, d as int);
                }
                return None;
            },
        }
        k += 1;
    }
    proof {
        assert(t@.subrange(start as int, len as int) =~= digits);
    }
    if neg {
        Some(acc)
    } else {
        if acc == i128::MIN {
            return None;
        }
        Some(-acc)
    }
}

/// When the negated accumulator underflows, the parsed value cannot fit,
/// whatever the remaining characters are.
proof fn lemma_parse_overflow(t: Seq<char>, digits: Seq<char>, start: int, k: int, acc: int, d: int)
    requires
        0 <= start <= k < t.len(),
        start == if t.len() > 0 && t[0] == '-' {
            1int
        } else {
            0int
        },
        digits == if t.len() > 0 && t[0] == '-' {
            t.subrange(1, t.len() as int)
        } else {
            t
        },
        forall|i: int| start <= i < k ==> is_dec_digit(#[trigger] t[i]),
        is_dec_digit(t[k]),
        d == t[k] as int - '0' as int,
        acc == -dec_value(t.subrange(start, k)),
        acc * 10 - d < i128::MIN,
    ensures
        spec_parse_i128(t) is None,
{
    assert(digits =~= t.subrange(start, t.len() as int));
    if all_dec_digits(digits) {
        let prefix1 = t.subrange(start, k + 1);
        assert(prefix1.drop_last() =~= t.subrange(start, k));
        assert(dec_value(prefix1) == dec_value(t.subrange(start, k)) * 10 + d);
        assert(dec_value(prefix1) > i128::MAX + 1);
        assert(prefix1 =~= digits.subrange(0, k + 1 - start));
        lemma_dec_value_prefix_le(digits, k + 1 - start);
        // the magnitude already exceeds the widest representable value
        assert(dec_value(digits) > i128::MAX + 1);
    }
}

/// Whether one string starts with another, character by character.
pub fn starts_with(a: &String, p: &String) -> (r: bool)
    ensures
        r == (p@.len() <= a@.len() && a@.subrange(0, p@.len() as int) == p@),
{
    let la = a.as_str().unicode_len();
    let lp = p.as_str().unicode_len();
    if lp > la {
        return false;
    }
    let sub = a.as_str().substring_char(0, lp);
    let subs = sub.to_owned();
    let eq = subs == *p;
    proof {
        if a@.subrange(0, p@.len() as int) =~= p@ {
        }
    }
    eq
}

/// The fixed-width hexadecimal digits of a value, most significant first.
pub open spec fn hex_fixed(v: nat, nd: nat) -> Seq<char>
    decreases nd,
{
    if nd == 0 {
        Seq::empty()
    } else {
        hex_fixed(v / 16, (nd - 1) as nat).push(spec_digit((v % 16) as int))
    }
}

/// The fixed-width binary digits of a value, most significant first.
pub open spec fn bin_fixed(v: nat, nd: nat) -> Seq<char>
    decreases nd,
{
    if nd == 0 {
        Seq::empty()
    } else {
        bin_fixed(v / 2, (nd - 1) as nat).push(spec_digit((v % 2) as int))
    }
}

/// The textual form of a concrete bit vector: hexadecimal with a sharp
/// prefix when the width is a multiple of four, else binary.
pub open spec fn bits_string(b: Sbits) -> Seq<char> {
    if b.width() % 4 == 0 {
        seq!['#', 'x'] + hex_fixed(b.value() as nat, (b.width() / 4) as nat)
    } else {
        seq!['#', 'b'] + bin_fixed(b.value() as nat, b.width() as nat)
    }
}

/// Render a value in fixed-width hexadecimal.
fn hex_fixed_string(v: u64, nd: u32) -> (s: String)
    ensures
        s@ == hex_fixed(v as nat, nd as nat),
    decreases nd,
{
    if nd == 0 {
        let s = String::new();
        proof {
            assert(s@ =~= hex_fixed(v as nat, 0));
        }
        s
    } else {
        let mut s = hex_fixed_string(v / 16, nd - 1);
        push_char(&mut s, digit_char((v % 16) as u8));
        s
    }
}

/// Render a value in fixed-width binary.
fn bin_fixed_string(v: u64, nd: u32) -> (s: String)
    ensures
        s@ == bin_fixed(v as nat, nd as nat),
    decreases nd,
{
    if nd == 0 {
        let s = String::new();
        proof {
            assert(s@ =~= bin_fixed(v as nat, 0));
        }
        s
    } else {
        let mut s = bin_fixed_string(v / 2, nd - 1);
        push_char(&mut s, digit_char((v % 2) as u8));
        s
    }
}

/// Render a concrete bit vector.
pub fn format_bits(b: Sbits) -> (s: String)
    requires
        b.wf(),
    ensures
        s@ == bits_string(b),
{
    let mut s = String::new();
    push_char(&mut s, '#');
    if b.len() % 4 == 0 {
        push_char(&mut s, 'x');
        let digits = hex_fixed_string(b.lower_u64(), b.len() / 4);
        s.append(digits.as_str());
        proof {
            assert(s@ =~= bits_string(b));
        }
        s
    } else {
        push_char(&mut s, 'b');
        let digits = bin_fixed_string(b.lower_u64(), b.len());
        s.append(digits.as_str());
        proof {
            assert(s@ =~= bits_string(b));
        }
        s
    }
}

} // verus!
