//! The name encoding of architecture identifiers.
//!
//! Identifiers coming from configuration and litmus files are encoded
//! before symbol-table lookup: a `z` is prepended, a literal `z` doubles,
//! and any byte that is not alphanumeric or an underscore becomes a `z`
//! followed by two hexadecimal digits.

use vstd::prelude::*;
use vstd::string::StringSliceAdditionalSpecFns;
use crate::strings::{push_char, spec_digit, digit_char};

verus! {

/// Whether a byte passes through the encoding unchanged: alphanumeric
/// other than `z`, or an underscore.
pub open spec fn spec_plain_byte(b: u8) -> bool {
    (48 <= b <= 57) || (65 <= b <= 90) || (97 <= b <= 121 && b != 122) || b == 95
}

/// The encoding of one byte.
pub open spec fn encode_byte(b: u8) -> Seq<char> {
    if b == 122 {
        seq!['z', 'z']
    } else if spec_plain_byte(b) {
        seq![((b as u32) as char)]
    } else {
        seq!['z', spec_digit((b / 16) as int), spec_digit((b % 16) as int)]
    }
}

/// The encoding of a byte sequence: the `z` sentinel, then each byte
/// encoded.
pub open spec fn spec_encode(bytes: Seq<u8>) -> Seq<char>
    decreases bytes.len(),
{
    if bytes.len() == 0 {
        seq!['z']
    } else {
        spec_encode(bytes.drop_last()) + encode_byte(bytes.last())
    }
}

/// Encode an identifier for symbol-table lookup.
#[verifier::loop_isolation(false)]
pub fn encode(name: &str) -> (r: String)
    ensures
        r@ == spec_encode(name.spec_bytes()),
{
    let bytes = name.as_bytes_vec();
    let mut out = String::new();
    push_char(&mut out, 'z');
    proof {
        assert(out@ =~= spec_encode(bytes@.subrange(0, 0)));
    }
    let mut k: usize = 0;
    while k < bytes.len()
        invariant
            k <= bytes@.len(),
            out@ == spec_encode(bytes@.subrange(0, k as int)),
        decreases bytes@.len() - k,
    {
        let b = bytes[k];
        let ghost pre = bytes@.subrange(0, k as int);
        let ghost cur = bytes@.subrange(0, k as int + 1);
        proof {
            assert(cur.drop_last() =~= pre);
            assert(cur.last() == bytes@[k as int]);
        }
        if b == 122 {
            push_char(&mut out, 'z');
            push_char(&mut out, 'z');
            proof {
                assert(out@ =~= spec_encode(cur));
            }
        } else if (48 <= b && b <= 57) || (65 <= b && b <= 90) || (97 <= b && b <= 121) || b
            == 95 {
            push_char(&mut out, byte_char(b));
            proof {
                assert(out@ =~= spec_encode(cur));
            }
        } else {
            push_char(&mut out, 'z');
            push_char(&mut out, digit_char(b / 16));
            push_char(&mut out, digit_char(b % 16));
            proof {
                assert(out@ =~= spec_encode(cur));
            }
        }
        k += 1;
    }
    proof {
        assert(bytes@.subrange(0, bytes@.len() as int) =~= bytes@);
    }
    out
}

/// The character of a plain byte.
fn byte_char(b: u8) -> (c: char)
    requires
        b < 123,
    ensures
        c as u32 == b,
{
    b as char
}

} // verus!
