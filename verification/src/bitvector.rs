//! Concrete fixed-width bit vectors.
//!
//! `Sbits` is a bit vector of up to [`MAX_WIDTH`] bits, stored as a width
//! together with the unsigned value of the bits. Every operation is total
//! within the declared widths. Above `MAX_WIDTH` the evaluator spills to the
//! SMT solver, so the constructors that could exceed it return `Option`.

use vstd::prelude::*;
use vstd::arithmetic::power2::{pow2, lemma_pow2_adds, lemma_pow2_pos, lemma2_to64, lemma2_to64_rest, lemma_pow2_strictly_increases};
use vstd::arithmetic::div_mod::{lemma_mod_mod, lemma_small_mod, lemma_mod_bound, lemma_fundamental_div_mod, lemma_fundamental_div_mod_converse, lemma_add_mod_noop_right, lemma_sub_mod_noop_right, lemma_mod_add_multiples_vanish, lemma_basic_div, lemma_div_is_ordered, lemma_div_nonincreasing, lemma_div_denominator, lemma_mod_multiples_basic};
use vstd::arithmetic::mul::{lemma_mul_inequality, lemma_mul_is_commutative, lemma_mul_is_distributive_add_other_way, lemma_mul_is_distributive_sub_other_way, lemma_mul_strictly_positive};
use vstd::bits::{low_bits_mask, lemma_u64_low_bits_mask_is_mod, lemma_u64_shl_is_mul, lemma_u64_shr_is_div, lemma_u64_pow2_no_overflow, lemma_low_bits_mask_values};

verus! {

/// The widest bit vector `Sbits` can hold; above this the evaluator
/// represents bit vectors as SMT terms.
pub const MAX_WIDTH: u32 = 64;

/// A concrete bit vector: a width of at most 64 bits and the unsigned
/// value of those bits.
#[derive(Clone, Copy, Debug, PartialEq, Eq, Hash, Structural)]
pub struct Sbits {
    length: u32,
    bits: u64,
}

impl Sbits {
    /// The width of the bit vector in bits.
    pub closed spec fn width(self) -> u32 {
        self.length
    }

    /// The unsigned value of the bits.
    pub closed spec fn value(self) -> u64 {
        self.bits
    }

    /// Well-formedness: the width fits the domain and the value has no bits
    /// above the width.
    pub open spec fn wf(self) -> bool {
        self.width() <= 64 && (self.value() as nat) < pow2(self.width() as nat)
    }

    /// The signed (two's complement) interpretation of the bits.
    pub open spec fn signed_value(self) -> int {
        if self.width() > 0 && self.value() as nat >= pow2((self.width() - 1) as nat) {
            self.value() - pow2(self.width() as nat)
        } else {
            self.value() as int
        }
    }
}

/// The mask with the low `len` bits set.
pub fn mask_u64(len: u32) -> (r: u64)
    requires
        len <= 64,
    ensures
        r as nat == low_bits_mask(len as nat),
        r as nat == pow2(len as nat) - 1,
{
    proof {
        lemma_low_bits_mask_values();
        lemma2_to64();
        lemma2_to64_rest();
    }
    if len == 64 {
        u64::MAX
    } else {
        proof {
            lemma_u64_pow2_no_overflow(len as nat);
            lemma_u64_shl_is_mul(1u64, len as u64);
        }
        (1u64 << len) - 1
    }
}

/// Reduce a value modulo `pow2(len)` by masking.
pub fn mod_pow2_u64(bits: u64, len: u32) -> (r: u64)
    requires
        len <= 64,
    ensures
        r as nat == (bits as nat) % pow2(len as nat),
        (r as nat) < pow2(len as nat),
{
    let m = mask_u64(len);
    proof {
        if len < 64 {
            lemma_u64_pow2_no_overflow(len as nat);
            lemma_u64_low_bits_mask_is_mod(bits, len as nat);
            assert(m == low_bits_mask(len as nat) as u64);
        } else {
            lemma2_to64();
            lemma2_to64_rest();
            assert(bits & 0xffff_ffff_ffff_ffffu64 == bits) by (bit_vector);
            lemma_small_mod(bits as nat, pow2(64));
        }
        lemma_pow2_pos(len as nat);
        lemma_mod_bound(bits as int, pow2(len as nat) as int);
    }
    bits & m
}

impl Sbits {
    /// Build a bit vector of width `len` from the low `len` bits of `bits`.
    pub fn new(bits: u64, len: u32) -> (r: Sbits)
        requires
            len <= 64,
        ensures
            r.wf(),
            r.width() == len,
            r.value() as nat == (bits as nat) % pow2(len as nat),
    {
        Sbits { length: len, bits: mod_pow2_u64(bits, len) }
    }

    /// A bit vector of width 64.
    pub fn from_u64(bits: u64) -> (r: Sbits)
        ensures
            r.wf(),
            r.width() == 64,
            r.value() == bits,
    {
        proof {
            lemma2_to64();
            lemma2_to64_rest();
            lemma_small_mod(bits as nat, pow2(64));
        }
        Sbits::new(bits, 64)
    }

    /// The all-zeros bit vector of width `len`.
    pub fn zeros(len: u32) -> (r: Sbits)
        requires
            len <= 64,
        ensures
            r.wf(),
            r.width() == len,
            r.value() == 0,
    {
        proof {
            lemma_pow2_pos(len as nat);
            lemma_small_mod(0, pow2(len as nat));
        }
        Sbits::new(0, len)
    }

    /// The all-ones bit vector of width `len`.
    pub fn ones(len: u32) -> (r: Sbits)
        requires
            len <= 64,
        ensures
            r.wf(),
            r.width() == len,
            r.value() as nat == pow2(len as nat) - 1,
    {
        let m = mask_u64(len);
        proof {
            lemma_pow2_pos(len as nat);
            lemma_small_mod((pow2(len as nat) - 1) as nat, pow2(len as nat));
        }
        Sbits { length: len, bits: m }
    }

    /// The single bit 0.
    pub fn bit_zero() -> (r: Sbits)
        ensures
            r.wf(),
            r.width() == 1,
            r.value() == 0,
    {
        Sbits::zeros(1)
    }

    /// The single bit 1.
    pub fn bit_one() -> (r: Sbits)
        ensures
            r.wf(),
            r.width() == 1,
            r.value() == 1,
    {
        proof {
            lemma2_to64();
        }
        Sbits::ones(1)
    }

    /// The width of the bit vector.
    pub fn len(&self) -> (r: u32)
        ensures
            r == self.width(),
    {
        self.length
    }

    /// The width as a 128-bit integer.
    pub fn len_i128(&self) -> (r: i128)
        ensures
            r == self.width(),
    {
        self.length as i128
    }

    /// The unsigned value of the low 64 bits.
    pub fn lower_u64(&self) -> (r: u64)
        ensures
            r == self.value(),
    {
        self.bits
    }

    /// True when every bit is zero.
    pub fn is_zero(&self) -> (r: bool)
        ensures
            r == (self.value() == 0),
    {
        self.bits == 0
    }
}

/// 2 to the power `e`, as a `u64`.
pub fn pow2_u64(e: u32) -> (r: u64)
    requires
        e < 64,
    ensures
        r as nat == pow2(e as nat),
{
    proof {
        lemma_u64_pow2_no_overflow(e as nat);
        lemma_u64_shl_is_mul(1u64, e as u64);
    }
    1u64 << e
}

/// Bitwise and, or and xor keep a bound shared by both operands.
proof fn lemma_bit_ops_below(x: u64, y: u64, w: u32)
    by (bit_vector)
    requires
        w < 64,
        x < (1u64 << w),
        y < (1u64 << w),
    ensures
        (x & y) < (1u64 << w),
        (x | y) < (1u64 << w),
        (x ^ y) < (1u64 << w),
{
}

/// Bitwise complement within a contiguous low-bit mask is subtraction
/// from the mask.
proof fn lemma_bit_not_mask(x: u64, m: u64, w: u32)
    by (bit_vector)
    requires
        x <= m,
        w == 64 ==> m == u64::MAX,
        w < 64 ==> m == (1u64 << w) - 1,
        w <= 64,
    ensures
        (!x & m) == m - x,
{
}

impl Sbits {
    /// Bitwise conjunction of two bit vectors of the same width.
    pub fn bitand(self, other: Sbits) -> (r: Sbits)
        requires
            self.wf(),
            other.wf(),
            self.width() == other.width(),
        ensures
            r.wf(),
            r.width() == self.width(),
            r.value() == (self.value() & other.value()),
    {
        proof {
            self.lemma_bit_op_wf(other);
        }
        Sbits { length: self.length, bits: self.bits & other.bits }
    }

    /// Bitwise disjunction of two bit vectors of the same width.
    pub fn bitor(self, other: Sbits) -> (r: Sbits)
        requires
            self.wf(),
            other.wf(),
            self.width() == other.width(),
        ensures
            r.wf(),
            r.width() == self.width(),
            r.value() == (self.value() | other.value()),
    {
        proof {
            self.lemma_bit_op_wf(other);
        }
        Sbits { length: self.length, bits: self.bits | other.bits }
    }

    /// Bitwise exclusive or of two bit vectors of the same width.
    pub fn bitxor(self, other: Sbits) -> (r: Sbits)
        requires
            self.wf(),
            other.wf(),
            self.width() == other.width(),
        ensures
            r.wf(),
            r.width() == self.width(),
            r.value() == (self.value() ^ other.value()),
    {
        proof {
            self.lemma_bit_op_wf(other);
        }
        Sbits { length: self.length, bits: self.bits ^ other.bits }
    }

    proof fn lemma_bit_op_wf(self, other: Sbits)
        requires
            self.wf(),
            other.wf(),
            self.width() == other.width(),
        ensures
            ((self.value() & other.value()) as nat) < pow2(self.width() as nat),
            ((self.value() | other.value()) as nat) < pow2(self.width() as nat),
            ((self.value() ^ other.value()) as nat) < pow2(self.width() as nat),
    {
        if self.length < 64 {
            lemma_u64_pow2_no_overflow(self.length as nat);
            lemma_u64_shl_is_mul(1u64, self.length as u64);
            lemma_bit_ops_below(self.bits, other.bits, self.length);
        } else {
            lemma2_to64();
            lemma2_to64_rest();
            let x = self.bits;
            let y = other.bits;
            assert((x & y) <= u64::MAX && (x | y) <= u64::MAX && (x ^ y) <= u64::MAX)
                by (bit_vector);
        }
    }

    /// Bitwise complement: every bit within the width is flipped.
    pub fn bitnot(self) -> (r: Sbits)
        requires
            self.wf(),
        ensures
            r.wf(),
            r.width() == self.width(),
            r.value() as int == pow2(self.width() as nat) - 1 - self.value(),
    {
        let m = mask_u64(self.length);
        proof {
            if self.length < 64 {
                lemma_u64_pow2_no_overflow(self.length as nat);
                lemma_u64_shl_is_mul(1u64, self.length as u64);
                assert(m == (1u64 << self.length) - 1);
            } else {
                lemma2_to64();
                lemma2_to64_rest();
                assert(m == u64::MAX);
            }
            lemma_bit_not_mask(self.bits, m, self.length);
        }
        Sbits { length: self.length, bits: !self.bits & m }
    }

    /// Modular addition: the value is the sum reduced modulo two to the
    /// width.
    pub fn add(self, other: Sbits) -> (r: Sbits)
        requires
            self.wf(),
            other.wf(),
            self.width() == other.width(),
        ensures
            r.wf(),
            r.width() == self.width(),
            r.value() as int == (self.value() + other.value()) % (pow2(self.width() as nat) as int),
    {
        let s = self.bits.wrapping_add(other.bits);
        proof {
            lemma2_to64();
            lemma2_to64_rest();
            let raw = self.bits + other.bits;
            assert(s as int % (pow2(64) as int) == raw % (pow2(64) as int)) by {
                if raw > u64::MAX {
                    lemma_mod_add_multiples_vanish(raw - pow2(64), pow2(64) as int);
                    lemma_small_mod(s as nat, pow2(64));
                } else {
                    lemma_small_mod(s as nat, pow2(64));
                }
            }
            lemma_mod_of_wrap_is_mod(s as int, raw, self.length);
            lemma_small_mod(s as nat, pow2(64));
        }
        Sbits { length: self.length, bits: mod_pow2_u64(s, self.length) }
    }

    /// Modular subtraction.
    pub fn sub(self, other: Sbits) -> (r: Sbits)
        requires
            self.wf(),
            other.wf(),
            self.width() == other.width(),
        ensures
            r.wf(),
            r.width() == self.width(),
            r.value() as int == (self.value() - other.value()) % (pow2(self.width() as nat) as int),
    {
        let s = self.bits.wrapping_sub(other.bits);
        proof {
            lemma2_to64();
            lemma2_to64_rest();
            let diff = self.bits - other.bits;
            assert(s as int % (pow2(64) as int) == diff % (pow2(64) as int)) by {
                if diff < 0 {
                    lemma_mod_add_multiples_vanish(diff, pow2(64) as int);
                    lemma_small_mod(s as nat, pow2(64));
                } else {
                    lemma_small_mod(s as nat, pow2(64));
                }
            }
            lemma_mod_of_wrap_is_mod(s as int, diff, self.length);
            lemma_small_mod(s as nat, pow2(64));
        }
        Sbits { length: self.length, bits: mod_pow2_u64(s, self.length) }
    }
}

/// Truncating an `i128` to a `u64` reduces it modulo two to the 64.
proof fn lemma_i128_as_u64(n: i128)
    by (bit_vector)
    ensures
        (n as u64) as int == (n as int) % 0x10000000000000000,
{
}

impl Sbits {
    /// Add an integer to the bit vector, modulo two to the width.
    pub fn add_i128(self, n: i128) -> (r: Sbits)
        requires
            self.wf(),
        ensures
            r.wf(),
            r.width() == self.width(),
            r.value() as int == (self.value() + n) % (pow2(self.width() as nat) as int),
    {
        let t = n as u64;
        proof {
            lemma2_to64();
            lemma2_to64_rest();
            lemma_i128_as_u64(n);
            lemma_mod_of_wrap_is_mod(t as int, n as int, self.length);
            lemma_add_mod_noop_right(self.bits as int, t as int, pow2(self.length as nat) as int);
            lemma_add_mod_noop_right(self.bits as int, n as int, pow2(self.length as nat) as int);
            lemma_pow2_pos(self.length as nat);
            lemma_mod_bound(t as int, pow2(self.length as nat) as int);
        }
        let m = Sbits::new(t, self.length);
        self.add(m)
    }

    /// Subtract an integer from the bit vector, modulo two to the width.
    pub fn sub_i128(self, n: i128) -> (r: Sbits)
        requires
            self.wf(),
        ensures
            r.wf(),
            r.width() == self.width(),
            r.value() as int == (self.value() - n) % (pow2(self.width() as nat) as int),
    {
        let t = n as u64;
        proof {
            lemma2_to64();
            lemma2_to64_rest();
            lemma_i128_as_u64(n);
            lemma_mod_of_wrap_is_mod(t as int, n as int, self.length);
            lemma_sub_mod_noop_right(self.bits as int, t as int, pow2(self.length as nat) as int);
            lemma_sub_mod_noop_right(self.bits as int, n as int, pow2(self.length as nat) as int);
            lemma_pow2_pos(self.length as nat);
            lemma_mod_bound(t as int, pow2(self.length as nat) as int);
        }
        let m = Sbits::new(t, self.length);
        self.sub(m)
    }

    /// Logical left shift: multiplication by a power of two, modulo two to
    /// the width. A negative shift amount shifts right instead.
    pub fn shiftl(self, shift: i128) -> (r: Sbits)
        requires
            self.wf(),
        ensures
            r.wf(),
            r.width() == self.width(),
            shift >= 0 ==> r.value() as int == (self.value() * pow2(shift as nat)) % (
            pow2(self.width() as nat) as int),
            shift < 0 ==> r.value() as nat == (self.value() as nat) / pow2((-shift) as nat),
    {
        if shift < 0 {
            let mag: i128 = if shift <= -64 {
                64
            } else {
                -shift
            };
            let r = self.shiftr_nonneg_amount(mag);
            proof {
                if shift <= -64 {
                    lemma2_to64();
                    lemma2_to64_rest();
                    assert((self.bits as nat) < pow2((-shift) as nat)) by {
                        if -shift > 64 {
                            lemma_pow2_strictly_increases(64, (-shift) as nat);
                        }
                    }
                    lemma_basic_div(self.bits as int, pow2((-shift) as nat) as int);
                    lemma_pow2_pos(64);
                    lemma_basic_div(self.bits as int, pow2(64) as int);
                }
            }
            r
        } else if shift >= self.length as i128 {
            proof {
                lemma_shl_mod_zero(self.bits as nat, self.length as nat, shift as nat);
                lemma_pow2_pos(self.length as nat);
            }
            Sbits::zeros(self.length)
        } else {
            // shift < width <= 64
            let sh = shift as u32;
            let p = pow2_u64(sh);
            let raw = self.bits.wrapping_mul(p);
            proof {
                lemma2_to64();
                lemma2_to64_rest();
                lemma_pow2_pos(64);
                lemma_mod_bound(self.bits * p, pow2(64) as int);
                lemma_small_mod(raw as nat, pow2(64));
                lemma_mod_of_wrap_is_mod(raw as int, self.bits * p, self.length);
            }
            Sbits { length: self.length, bits: mod_pow2_u64(raw, self.length) }
        }
    }

    /// Logical right shift: division by a power of two. A negative shift
    /// amount shifts left instead.
    pub fn shiftr(self, shift: i128) -> (r: Sbits)
        requires
            self.wf(),
        ensures
            r.wf(),
            r.width() == self.width(),
            shift >= 0 ==> r.value() as nat == (self.value() as nat) / pow2(shift as nat),
            shift < 0 ==> r.value() as int == (self.value() * pow2((-shift) as nat)) % (
            pow2(self.width() as nat) as int),
    {
        if shift >= 0 {
            self.shiftr_nonneg_amount(shift)
        } else if shift <= -(self.length as i128) {
            proof {
                lemma_shl_mod_zero(self.bits as nat, self.length as nat, (-shift) as nat);
                lemma_pow2_pos(self.length as nat);
            }
            Sbits::zeros(self.length)
        } else {
            self.shiftl(-shift)
        }
    }

    /// Logical right shift by a non-negative amount.
    fn shiftr_nonneg_amount(self, shift: i128) -> (r: Sbits)
        requires
            self.wf(),
            shift >= 0,
        ensures
            r.wf(),
            r.width() == self.width(),
            r.value() as nat == (self.value() as nat) / pow2(shift as nat),
    {
        if shift >= 64 {
            proof {
                lemma2_to64();
                lemma2_to64_rest();
                assert((self.bits as nat) < pow2(shift as nat)) by {
                    if shift > 64 {
                        lemma_pow2_strictly_increases(64, shift as nat);
                    }
                }
                lemma_basic_div(self.bits as int, pow2(shift as nat) as int);
                lemma_pow2_pos(self.length as nat);
                lemma_small_mod(0, pow2(self.length as nat));
            }
            Sbits::zeros(self.length)
        } else {
            let sh = shift as u64;
            proof {
                lemma_u64_shr_is_div(self.bits, sh);
                lemma_pow2_pos(shift as nat);
                lemma_div_is_ordered(0, self.bits as int, pow2(shift as nat) as int);
                vstd::arithmetic::div_mod::lemma_div_nonincreasing(
                    self.bits as int,
                    pow2(shift as nat) as int,
                );
            }
            Sbits { length: self.length, bits: self.bits >> sh }
        }
    }

    /// Arithmetic right shift: flooring division of the signed value by a
    /// power of two, reduced modulo two to the width. A negative shift
    /// amount shifts left instead.
    pub fn arith_shiftr(self, shift: i128) -> (r: Sbits)
        requires
            self.wf(),
        ensures
            r.wf(),
            r.width() == self.width(),
            shift >= 0 ==> r.value() as int == (self.signed_value() / (pow2(shift as nat) as int))
                % (pow2(self.width() as nat) as int),
            shift < 0 ==> r.value() as int == (self.value() * pow2((-shift) as nat)) % (
            pow2(self.width() as nat) as int),
    {
        if shift < 0 {
            if shift <= -(self.length as i128) {
                proof {
                    lemma_shl_mod_zero(self.bits as nat, self.length as nat, (-shift) as nat);
                    lemma_pow2_pos(self.length as nat);
                }
                return Sbits::zeros(self.length);
            }
            return self.shiftl(-shift);
        }
        let w = self.length;
        let sv = self.signed();
        proof {
            lemma_pow2_pos(shift as nat);
            lemma_pow2_pos(w as nat);
            lemma2_to64();
            lemma2_to64_rest();
        }
        let q: i128 = if shift >= 64 {
            proof {
                let p = pow2(shift as nat) as int;
                assert(pow2(64) <= pow2(shift as nat)) by {
                    if shift > 64 {
                        lemma_pow2_strictly_increases(64, shift as nat);
                    }
                }
                assert(self.signed_value() < p && -p <= self.signed_value());
                if sv >= 0 {
                    lemma_basic_div(sv as int, p);
                } else {
                    lemma_div_of_negative_small(sv as int, p);
                }
            }
            if sv >= 0 {
                0
            } else {
                -1
            }
        } else {
            let p: u64 = pow2_u64(shift as u32);
            if sv >= 0 {
                ((sv as u128) / (p as u128)) as i128
            } else {
                let a: u128 = (-(sv + 1)) as u128;
                let qa: u128 = a / (p as u128);
                proof {
                    let pi = p as int;
                    let qai = a as int / pi;
                    lemma_fundamental_div_mod(a as int, pi);
                    lemma_mod_bound(a as int, pi);
                    let ra = a as int % pi;
                    assert(sv as int == pi * (-qai - 1) + (pi - ra - 1)) by {
                        assert(pi * (-qai - 1) == -(pi * qai) - pi) by (nonlinear_arith);
                    }
                    lemma_fundamental_div_mod_converse(sv as int, pi, -qai - 1, pi - ra - 1);
                    lemma_div_is_ordered(0, a as int, pi);
                    lemma_div_nonincreasing(a as int, pi);
                }
                -(qa as i128) - 1
            }
        };
        proof {
            let p = pow2(shift as nat) as int;
            let pw = pow2(w as nat) as int;
            let sv_i = self.signed_value();
            assert(-pw <= q < pw) by {
                if sv_i >= 0 {
                    lemma_div_nonincreasing(sv_i, p);
                    lemma_div_is_ordered(0, sv_i, p);
                } else {
                    lemma_div_is_ordered(-pw, sv_i, p);
                    lemma_div_neg_bound(pw, p);
                    assert(q <= 0) by {
                        lemma_fundamental_div_mod(sv_i, p);
                        lemma_mod_bound(sv_i, p);
                        assert(p * q <= sv_i < 0 ==> q <= 0) by (nonlinear_arith)
                            requires
                                p > 0,
                        ;
                    }
                }
            }
        }
        let qm: u64 = if q >= 0 {
            proof {
                lemma_small_mod(q as nat, pow2(w as nat));
            }
            q as u64
        } else {
            proof {
                lemma_mod_add_multiples_vanish(q as int, pow2(w as nat) as int);
                lemma_small_mod((q + pow2(w as nat)) as nat, pow2(w as nat));
            }
            (q + pow2_i128(w)) as u64
        };
        Sbits { length: w, bits: qm }
    }

    /// The unsigned value as a 128-bit integer.
    pub fn unsigned(&self) -> (r: i128)
        ensures
            r == self.value(),
    {
        self.bits as i128
    }

    /// The signed (two's complement) value as a 128-bit integer.
    pub fn signed(&self) -> (r: i128)
        requires
            self.wf(),
        ensures
            r == self.signed_value(),
    {
        if self.length == 0 {
            proof {
                lemma2_to64();
            }
            0
        } else {
            let half = pow2_u64(self.length - 1);
            if self.bits >= half {
                proof {
                    lemma_pow2_adds((self.length - 1) as nat, 1);
                    lemma2_to64();
                }
                self.bits as i128 - pow2_i128(self.length)
            } else {
                self.bits as i128
            }
        }
    }

    /// Widen the bit vector with zero bits; the value is unchanged.
    pub fn zero_extend(self, len: u32) -> (r: Sbits)
        requires
            self.wf(),
            self.width() <= len <= 64,
        ensures
            r.wf(),
            r.width() == len,
            r.value() == self.value(),
    {
        proof {
            if (self.length as nat) < len as nat {
                lemma_pow2_strictly_increases(self.length as nat, len as nat);
            }
        }
        Sbits { length: len, bits: self.bits }
    }

    /// Widen the bit vector with copies of its sign bit; the signed value
    /// is unchanged.
    pub fn sign_extend(self, len: u32) -> (r: Sbits)
        requires
            self.wf(),
            self.width() <= len <= 64,
        ensures
            r.wf(),
            r.width() == len,
            r.value() as int == self.signed_value() % (pow2(len as nat) as int),
            r.signed_value() == self.signed_value() || (self.width() == len),
    {
        let w = self.length;
        proof {
            lemma_pow2_pos(len as nat);
            if (w as nat) < len as nat {
                lemma_pow2_strictly_increases(w as nat, len as nat);
            }
        }
        if w == 0 {
            proof {
                lemma2_to64();
                lemma_small_mod(0, pow2(len as nat));
                if len > 0 {
                    lemma_pow2_pos((len - 1) as nat);
                }
            }
            Sbits::zeros(len)
        } else {
            let half = pow2_u64(w - 1);
            proof {
                // pow2 is monotone from width - 1 up to len and len - 1.
                if ((w - 1) as nat) < (len as nat) {
                    lemma_pow2_strictly_increases((w - 1) as nat, len as nat);
                }
                if ((w - 1) as nat) < ((len - 1) as nat) {
                    lemma_pow2_strictly_increases((w - 1) as nat, (len - 1) as nat);
                }
                lemma_pow2_adds((w - 1) as nat, 1);
                lemma_pow2_adds((len - 1) as nat, 1);
                lemma2_to64();
            }
            if self.bits >= half {
                let m_len = mask_u64(len);
                let m_w = mask_u64(w);
                let bits = self.bits + (m_len - m_w);
                proof {
                    let sv = self.signed_value();
                    assert(bits as int == sv + pow2(len as nat));
                    lemma_mod_add_multiples_vanish(sv, pow2(len as nat) as int);
                    lemma_small_mod(bits as nat, pow2(len as nat));
                }
                Sbits { length: len, bits }
            } else {
                proof {
                    lemma_small_mod(self.bits as nat, pow2(len as nat));
                }
                Sbits { length: len, bits: self.bits }
            }
        }
    }
}

/// 2 to the power `e`, as an `i128`.
pub fn pow2_i128(e: u32) -> (r: i128)
    requires
        e <= 64,
    ensures
        r as nat == pow2(e as nat),
        0 < r <= 0x10000000000000000i128,
{
    proof {
        lemma_pow2_pos(e as nat);
    }
    if e <= 63 {
        pow2_u64(e) as i128
    } else {
        proof {
            lemma_pow2_adds(63, 1);
            lemma2_to64();
        }
        2 * (pow2_u64(63) as i128)
    }
}

/// The value that results from overwriting, in a bit vector of value `v`,
/// the `uw` bits starting at bit `n` with the value `uv`.
pub open spec fn set_slice_value(v: nat, n: nat, uw: nat, uv: nat) -> int {
    v - ((v / pow2(n)) % pow2(uw)) * pow2(n) + uv * pow2(n)
}

/// The value of `times` copies of a `w`-bit value `v` concatenated together.
pub open spec fn replicate_value(v: nat, w: nat, times: nat) -> nat
    decreases times,
{
    if times == 0 {
        0
    } else {
        replicate_value(v, w, (times - 1) as nat) * pow2(w) + v
    }
}

/// The number of zero bits above the most significant one bit of a `w`-bit
/// value `v`.
pub open spec fn clz_value(v: nat, w: nat) -> nat
    decreases w,
{
    if w == 0 {
        0
    } else if v >= pow2((w - 1) as nat) {
        0
    } else {
        1 + clz_value(v, (w - 1) as nat)
    }
}

/// Dividing a value below `a * b` by `a` gives a quotient below `b`.
proof fn lemma_div_bound(v: nat, a: nat, b: nat)
    requires
        0 < a,
        v < a * b,
    ensures
        v / a < b,
{
    lemma_fundamental_div_mod(v as int, a as int);
    lemma_mod_bound(v as int, a as int);
    let q = v as int / a as int;
    let r = v as int % a as int;
    assert(a * q + r == v && 0 <= r < a && v < a * b ==> q < b) by (nonlinear_arith);
}

/// Bounds used by `set_slice`: the extracted middle slice is no more than
/// the whole value, and the updated value stays within the width.
proof fn lemma_set_slice_bound(v: nat, w: nat, n: nat, uw: nat, uv: nat)
    requires
        v < pow2(w),
        n + uw <= w,
        uv < pow2(uw),
    ensures
        ((v / pow2(n)) % pow2(uw)) * pow2(n) <= v,
        0 <= set_slice_value(v, n, uw, uv) < pow2(w),
{
    let pn = pow2(n) as int;
    let puw = pow2(uw) as int;
    let pw = pow2(w) as int;
    let pnuw = pow2((n + uw) as nat) as int;
    let prest = pow2((w - n - uw) as nat) as int;
    lemma_pow2_pos(n);
    lemma_pow2_pos(uw);
    lemma_pow2_pos(w);
    lemma_pow2_pos((n + uw) as nat);
    lemma_pow2_pos((w - n - uw) as nat);
    lemma_pow2_adds(n, uw);
    lemma_pow2_adds((n + uw) as nat, (w - n - uw) as nat);
    let q = v as int / pn;
    let m = q % puw;
    let r0 = v as int % pn;
    lemma_fundamental_div_mod(v as int, pn);
    lemma_mod_bound(v as int, pn);
    lemma_fundamental_div_mod(q, puw);
    lemma_mod_bound(q, puw);
    let q2 = q / puw;
    // v = q2 * 2^(n+uw) + m * 2^n + r0
    assert(v as int == q2 * pnuw + m * pn + r0) by (nonlinear_arith)
        requires
            v as int == pn * q + r0,
            q == puw * q2 + m,
            pnuw == pn * puw,
    ;
    assert(q2 >= 0) by (nonlinear_arith)
        requires
            puw * q2 + m == q,
            0 <= m < puw,
            q >= 0,
            puw > 0,
    ;
    assert(m * pn <= v) by (nonlinear_arith)
        requires
            v as int == q2 * pnuw + m * pn + r0,
            q2 >= 0,
            r0 >= 0,
            pnuw > 0,
            pn > 0,
            m >= 0,
    ;
    assert(q2 < prest) by (nonlinear_arith)
        requires
            v as int == q2 * pnuw + m * pn + r0,
            v < pw,
            pw == pnuw * prest,
            0 <= m * pn + r0,
            pnuw > 0,
            prest > 0,
    ;
    assert(q2 * pnuw + r0 + uv * pn < pw) by (nonlinear_arith)
        requires
            q2 <= prest - 1,
            r0 < pn,
            uv <= puw - 1,
            pnuw == pn * puw,
            pw == pnuw * prest,
            pn > 0,
            puw > 0,
            prest > 0,
            pnuw > 0,
            q2 >= 0,
            uv >= 0,
            r0 >= 0,
    ;
    assert(set_slice_value(v, n, uw, uv) == q2 * pnuw + r0 + uv * pn);
    assert(set_slice_value(v, n, uw, uv) >= 0) by (nonlinear_arith)
        requires
            set_slice_value(v, n, uw, uv) == q2 * pnuw + r0 + uv * pn,
            q2 >= 0,
            pnuw > 0,
            r0 >= 0,
            uv >= 0,
            pn > 0,
    ;
}

/// The concatenated replicas of a `w`-bit value fit in `w * times` bits.
proof fn lemma_replicate_bound(v: nat, w: nat, times: nat)
    requires
        v < pow2(w),
    ensures
        replicate_value(v, w, times) < pow2(w * times),
    decreases times,
{
    lemma_pow2_pos(w);
    lemma_pow2_pos(w * times);
    if times == 0 {
        lemma2_to64();
    } else {
        let prev = replicate_value(v, w, (times - 1) as nat);
        lemma_replicate_bound(v, w, (times - 1) as nat);
        lemma_pow2_adds(w * (times - 1) as nat, w);
        assert(w * times == w * (times - 1) as nat + w) by (nonlinear_arith)
            requires
                times >= 1,
        ;
        assert(prev * pow2(w) + v < pow2(w * (times - 1) as nat) * pow2(w)) by (nonlinear_arith)
            requires
                prev < pow2(w * (times - 1) as nat),
                v < pow2(w),
                pow2(w) > 0,
        ;
    }
}

impl Sbits {
    /// Extract `length` bits starting at bit `from`, when that range lies
    /// within the bit vector.
    pub fn slice(&self, from: u32, length: u32) -> (r: Option<Sbits>)
        requires
            self.wf(),
        ensures
            (from + length <= self.width()) == r is Some,
            r matches Some(b) ==> {
                &&& b.wf()
                &&& b.width() == length
                &&& b.value() as nat == ((self.value() as nat) / pow2(from as nat)) % pow2(
                    length as nat)
            },
    {
        if (from as u64) + (length as u64) <= (self.length as u64) {
            if from == 64 {
                proof {
                    lemma2_to64();
                    lemma2_to64_rest();
                    lemma_basic_div(self.bits as int, pow2(64) as int);
                    lemma_small_mod(0, pow2(length as nat));
                }
                Some(Sbits::zeros(length))
            } else {
                proof {
                    lemma_u64_shr_is_div(self.bits, from as u64);
                }
                Some(Sbits::new(self.bits >> (from as u64), length))
            }
        } else {
            None
        }
    }

    /// Extract the bits from position `low` up to and including position
    /// `high`.
    pub fn extract(&self, high: u32, low: u32) -> (r: Option<Sbits>)
        requires
            self.wf(),
        ensures
            (low <= high && high < self.width()) == r is Some,
            r matches Some(b) ==> {
                &&& b.wf()
                &&& b.width() == high - low + 1
                &&& b.value() as nat == ((self.value() as nat) / pow2(low as nat)) % pow2(
                    (high - low + 1) as nat)
            },
    {
        if low <= high && high < self.length {
            proof {
                lemma_u64_shr_is_div(self.bits, low as u64);
            }
            Some(Sbits::new(self.bits >> (low as u64), high - low + 1))
        } else {
            None
        }
    }

    /// Concatenate two bit vectors, when the combined width fits.
    pub fn append(self, other: Sbits) -> (r: Option<Sbits>)
        requires
            self.wf(),
            other.wf(),
        ensures
            (self.width() + other.width() <= 64) == r is Some,
            r matches Some(b) ==> {
                &&& b.wf()
                &&& b.width() == self.width() + other.width()
                &&& b.value() as nat == (self.value() as nat) * pow2(other.width() as nat)
                    + other.value() as nat
            },
    {
        if (self.length as u64) + (other.length as u64) <= 64 {
            if other.length == 64 {
                proof {
                    lemma2_to64();
                    assert(self.value() == 0);
                    assert((self.value() as nat) * pow2(other.width() as nat) == 0)
                        by (nonlinear_arith)
                        requires
                            self.value() == 0,
                    ;
                }
                Some(other)
            } else {
                let p = pow2_u64(other.length);
                proof {
                    let w1 = self.length as nat;
                    let w2 = other.length as nat;
                    lemma_pow2_adds(w1, w2);
                    lemma2_to64();
                    lemma2_to64_rest();
                    assert(self.bits * p + other.bits < pow2((w1 + w2) as nat)) by (
                    nonlinear_arith)
                        requires
                            self.bits <= pow2(w1) - 1,
                            other.bits < p,
                            p == pow2(w2),
                            pow2((w1 + w2) as nat) == pow2(w1) * pow2(w2),
                            p > 0,
                    ;
                    assert(pow2((w1 + w2) as nat) <= pow2(64)) by {
                        if w1 + w2 < 64 {
                            lemma_pow2_strictly_increases((w1 + w2) as nat, 64);
                        }
                    }
                }
                Some(Sbits { length: self.length + other.length, bits: self.bits * p + other.bits })
            }
        } else {
            None
        }
    }

    /// Overwrite `update.width()` bits starting at bit `n` with `update`.
    pub fn set_slice(self, n: u32, update: Sbits) -> (r: Sbits)
        requires
            self.wf(),
            update.wf(),
            n + update.width() <= self.width(),
        ensures
            r.wf(),
            r.width() == self.width(),
            r.value() as int == set_slice_value(
                self.value() as nat,
                n as nat,
                update.width() as nat,
                update.value() as nat,
            ),
    {
        let uw = update.length;
        proof {
            lemma_pow2_pos(n as nat);
            lemma_pow2_pos(uw as nat);
            lemma_set_slice_bound(
                self.bits as nat,
                self.length as nat,
                n as nat,
                uw as nat,
                update.bits as nat,
            );
        }
        if uw == 0 {
            proof {
                lemma2_to64();
                let q = ((self.bits as nat) / pow2(n as nat)) as int;
                lemma_pow2_pos(n as nat);
                assert(q % 1int == 0) by {
                    lemma_mod_bound(q, 1int);
                }
            }
            return self;
        }
        // n < 64 because n + uw <= width <= 64 and uw >= 1
        let q = self.bits >> (n as u64);
        let m = mod_pow2_u64(q, uw);
        let p = pow2_u64(n);
        proof {
            lemma_u64_shr_is_div(self.bits, n as u64);
            let mid = ((self.bits as nat) / pow2(n as nat)) % pow2(uw as nat);
            assert(m * p == mid * pow2(n as nat));
            lemma_pow2_adds(n as nat, uw as nat);
            assert(update.bits * p < pow2((n + uw) as nat)) by (nonlinear_arith)
                requires
                    update.bits < pow2(uw as nat),
                    p == pow2(n as nat),
                    pow2((n + uw) as nat) == pow2(n as nat) * pow2(uw as nat),
                    p > 0,
            ;
            assert(pow2((n + uw) as nat) <= pow2(64)) by {
                if n + uw < 64 {
                    lemma_pow2_strictly_increases((n + uw) as nat, 64);
                }
            }
            lemma2_to64();
            lemma2_to64_rest();
            assert(pow2(self.length as nat) <= pow2(64)) by {
                if self.length < 64 {
                    lemma_pow2_strictly_increases(self.length as nat, 64);
                }
            }
        }
        let mid = m * p;
        let upd = update.lower_u64() * p;
        Sbits { length: self.length, bits: self.bits - mid + upd }
    }

    /// Concatenate `times` copies of the bit vector, when the result fits.
    pub fn replicate(self, times: i128) -> (r: Option<Sbits>)
        requires
            self.wf(),
        ensures
            (0 <= times && self.width() * times <= 64) == r is Some,
            r matches Some(b) ==> {
                &&& b.wf()
                &&& b.width() == self.width() * times
                &&& b.value() as nat == replicate_value(
                    self.value() as nat,
                    self.width() as nat,
                    times as nat,
                )
            },
    {
        if times < 0 {
            return None;
        }
        if self.length == 0 {
            proof {
                lemma2_to64();
                lemma_replicate_zero(times as nat);
                assert(self.width() * times == 0) by (nonlinear_arith)
                    requires
                        self.width() == 0,
                ;
            }
            return Some(Sbits::zeros(0));
        }
        if times > 64 {
            proof {
                assert(self.length as int * times > 64) by (nonlinear_arith)
                    requires
                        self.length >= 1,
                        times > 64,
                ;
            }
            return None;
        }
        let t = times as u32;
        let w = self.length;
        proof {
            assert(w * t <= 4096) by (nonlinear_arith)
                requires
                    w <= 64 && t <= 64,
            ;
        }
        if w * t > 64 {
            return None;
        }
        if t == 0 {
            proof {
                lemma2_to64();
                assert(self.width() * times == 0) by (nonlinear_arith)
                    requires
                        times == 0,
                ;
            }
            return Some(Sbits::zeros(0));
        }
        let ghost vv = self.bits as nat;
        let mut acc: u64 = self.bits;
        let mut i: u32 = 1;
        proof {
            lemma2_to64();
            assert(replicate_value(vv, w as nat, 1) == replicate_value(vv, w as nat, 0) * pow2(
                w as nat) + vv);
            assert(replicate_value(vv, w as nat, 0) * pow2(w as nat) == 0) by (nonlinear_arith)
                requires
                    replicate_value(vv, w as nat, 0) == 0,
            ;
        }
        while i < t
            invariant
                self.wf(),
                0 < w == self.length,
                1 <= i <= t,
                w * t <= 64,
                vv == self.bits as nat,
                acc as nat == replicate_value(vv, w as nat, i as nat),
            decreases t - i,
        {
            proof {
                lemma_replicate_bound(vv, w as nat, i as nat);
                assert(w * (i + 1) <= w * t) by (nonlinear_arith)
                    requires
                        i + 1 <= t,
                        w >= 1,
                ;
                assert(w * (i + 1) == w * i + w) by (nonlinear_arith);
                lemma_pow2_adds((w * i) as nat, w as nat);
                assert(pow2((w * i + w) as nat) <= pow2(64)) by {
                    if w * i + w < 64 {
                        lemma_pow2_strictly_increases((w * i + w) as nat, 64);
                    }
                }
                lemma2_to64();
                lemma2_to64_rest();
                // the loop body stays within 64 bits, so w < 64 here
                assert(w < 64) by (nonlinear_arith)
                    requires
                        w * (i + 1) <= 64,
                        i >= 1,
                        w >= 1,
                ;
            }
            let p = pow2_u64(w);
            proof {
                assert(acc * p + self.bits < pow2((w * i) as nat) * pow2(w as nat)) by (
                nonlinear_arith)
                    requires
                        (acc as nat) < pow2((w * i) as nat),
                        (self.bits as nat) < pow2(w as nat),
                        p == pow2(w as nat),
                        p > 0,
                ;
            }
            acc = acc * p + self.bits;
            i = i + 1;
        }
        proof {
            lemma_replicate_bound(vv, w as nat, t as nat);
            assert(pow2((w * t) as nat) > 0) by {
                lemma_pow2_pos((w * t) as nat);
            }
        }
        Some(Sbits { length: w * t, bits: acc })
    }


    /// Extract `length` bits starting at bit `from`, falling back to a
    /// shift for a starting position beyond the width, as an out-of-range
    /// slice after program linearization does.
    pub fn slice_from_i128(&self, from: i128, length: u32) -> (r: Option<Sbits>)
        requires
            self.wf(),
            from >= 0,
            length <= self.width(),
        ensures
            r matches Some(b) ==> {
                &&& b.wf()
                &&& b.width() == length
                &&& b.value() as nat == ((self.value() as nat) / pow2(from as nat)) % pow2(
                    length as nat)
            },
            r is Some,
    {
        if from <= self.len() as i128 && from + (length as i128) <= self.len() as i128 {
            match self.slice(from as u32, length) {
                Some(c) => Some(c),
                None => None,
            }
        } else {
            let shifted = self.shiftr(from);
            match shifted.slice(0, length) {
                Some(c) => {
                    proof {
                        lemma2_to64();
                        vstd::arithmetic::div_mod::lemma_div_basics(shifted.value() as int);
                    }
                    Some(c)
                },
                None => None,
            }
        }
    }


    /// Round the unsigned value down to a multiple of a positive
    /// alignment, modulo two to the width.
    pub fn align_down(self, a: i128) -> (r: Sbits)
        requires
            self.wf(),
            a > 0,
        ensures
            r.wf(),
            r.width() == self.width(),
            r.value() as int == ((a as int) * ((self.value() as int) / (a as int))) % (pow2(
                self.width() as nat) as int),
    {
        let q = (self.bits as u128) / (a as u128);
        proof {
            lemma_fundamental_div_mod(self.bits as int, a as int);
            lemma_mod_bound(self.bits as int, a as int);
            assert((a as int) * (q as int) <= self.bits as int) by (nonlinear_arith)
                requires
                    q == (self.bits as int) / (a as int),
                    a > 0,
                    (a as int) * ((self.bits as int) / (a as int)) + (self.bits as int) % (
                    a as int) == self.bits as int,
                    (self.bits as int) % (a as int) >= 0,
            ;
        }
        let m = (a as u128) * q;
        proof {
            lemma2_to64();
            lemma2_to64_rest();
            lemma_small_mod(m as nat, pow2(64));
            lemma_pow2_pos(self.length as nat);
        }
        Sbits::new(m as u64, self.length)
    }

    /// Keep the `len` most significant bits, dropping the rest.
    pub fn truncate_lsb(self, len: i128) -> (r: Option<Sbits>)
        requires
            self.wf(),
        ensures
            (0 <= len <= self.width()) == r is Some,
            r matches Some(b) ==> {
                &&& b.wf()
                &&& b.width() == len
                &&& b.value() as nat == (self.value() as nat) / pow2((self.width() - len) as nat)
            },
    {
        if 0 <= len && len <= self.length as i128 {
            let l = len as u32;
            let sh = self.length - l;
            if sh == 64 {
                proof {
                    lemma2_to64();
                    lemma2_to64_rest();
                    lemma_basic_div(self.bits as int, pow2(64) as int);
                }
                Some(Sbits::zeros(l))
            } else {
                proof {
                    lemma_u64_shr_is_div(self.bits, sh as u64);
                    lemma_pow2_pos(sh as nat);
                    lemma_pow2_adds(sh as nat, l as nat);
                    lemma_div_bound(self.bits as nat, pow2(sh as nat), pow2(l as nat));
                }
                Some(Sbits { length: l, bits: self.bits >> (sh as u64) })
            }
        } else {
            None
        }
    }

    /// Count the zero bits above the most significant one bit.
    pub fn leading_zeros(&self) -> (r: u32)
        requires
            self.wf(),
        ensures
            r == clz_value(self.value() as nat, self.width() as nat),
            r <= self.width(),
    {
        let ghost v = self.bits as nat;
        let ghost w = self.length as nat;
        let mut i = self.length;
        while i > 0
            invariant
                self.wf(),
                v == self.bits as nat,
                w == self.length as nat,
                i <= self.length,
                v < pow2(i as nat),
                clz_value(v, w) == self.length - i + clz_value(v, i as nat),
            decreases i,
        {
            let half = pow2_u64(i - 1);
            if self.bits >= half {
                proof {
                    assert(clz_value(v, i as nat) == 0);
                }
                return self.length - i;
            }
            i = i - 1;
        }
        proof {
            assert(clz_value(v, 0) == 0);
        }
        self.length
    }
}

/// The 128-bit two's complement value with the `uw` bits starting at bit
/// `n` overwritten by `uv`, before reduction modulo two to the 128.
pub open spec fn set_slice_int_value(x: int, n: nat, uw: nat, uv: nat) -> int {
    x - ((x / (pow2(n) as int)) % (pow2(uw) as int)) * pow2(n) + uv * pow2(n)
}

/// Truncating an `i128` to a `u128` reduces it modulo two to the 128.
proof fn lemma_i128_as_u128(n: i128)
    by (bit_vector)
    ensures
        (n as u128) as int == (n as int) % 0x100000000000000000000000000000000int,
{
}

/// Reinterpreting a `u128` as an `i128` preserves the value modulo two to
/// the 128.
proof fn lemma_u128_as_i128(x: u128)
    by (bit_vector)
    ensures
        ((x as i128) as int) % 0x100000000000000000000000000000000int
            == (x as int) % 0x100000000000000000000000000000000int,
{
}

/// The value of 2 to the 128.
proof fn lemma_pow2_128_value()
    ensures
        pow2(128) == 0x100000000000000000000000000000000int,
        pow2(127) == 0x80000000000000000000000000000000,
        pow2(126) == 0x40000000000000000000000000000000,
{
    lemma_pow2_adds(64, 64);
    lemma_pow2_adds(63, 64);
    lemma_pow2_adds(63, 63);
    lemma2_to64_rest();
}

/// 2 to the power `e`, as a `u128`.
pub fn pow2_u128(e: u32) -> (r: u128)
    requires
        e <= 127,
    ensures
        r as nat == pow2(e as nat),
        r > 0,
{
    proof {
        lemma_pow2_pos(e as nat);
    }
    if e <= 63 {
        pow2_u64(e) as u128
    } else if e <= 126 {
        let a = e / 2;
        let b = e - a;
        proof {
            lemma_pow2_adds(a as nat, b as nat);
            lemma_pow2_128_value();
            assert(pow2(e as nat) <= pow2(126)) by {
                if e < 126 {
                    lemma_pow2_strictly_increases(e as nat, 126);
                }
            }
        }
        (pow2_u64(a) as u128) * (pow2_u64(b) as u128)
    } else {
        let a = pow2_u64(63);
        proof {
            lemma2_to64_rest();
            lemma_pow2_adds(63, 63);
            lemma_pow2_adds(126, 1);
            lemma2_to64();
            lemma_pow2_128_value();
        }
        let h = (a as u128) * (a as u128);
        2 * h
    }
}

/// Flooring division of an `i128` by 2 to the `e`.
pub fn floor_div_pow2_i128(n: i128, e: u32) -> (q: i128)
    ensures
        q == (n as int) / (pow2(e as nat) as int),
{
    proof {
        lemma_pow2_pos(e as nat);
    }
    if e >= 127 {
        proof {
            lemma_pow2_128_value();
            assert(pow2(127) <= pow2(e as nat)) by {
                if e > 127 {
                    lemma_pow2_strictly_increases(127, e as nat);
                }
            }
            if n >= 0 {
                lemma_basic_div(n as int, pow2(e as nat) as int);
            } else {
                lemma_div_of_negative_small(n as int, pow2(e as nat) as int);
            }
        }
        if n >= 0 {
            0
        } else {
            -1
        }
    } else {
        let p = pow2_u128(e);
        if n >= 0 {
            let qa = (n as u128) / p;
            proof {
                lemma_div_is_ordered(0, n as int, p as int);
                lemma_div_nonincreasing(n as int, p as int);
            }
            qa as i128
        } else {
            let a = (-(n + 1)) as u128;
            let qa = a / p;
            proof {
                let pi = p as int;
                let qai = a as int / pi;
                lemma_fundamental_div_mod(a as int, pi);
                lemma_mod_bound(a as int, pi);
                let ra = a as int % pi;
                assert(n as int == pi * (-qai - 1) + (pi - ra - 1)) by (nonlinear_arith)
                    requires
                        a as int == pi * qai + ra,
                        n as int == -(a as int) - 1,
                ;
                lemma_fundamental_div_mod_converse(n as int, pi, -qai - 1, pi - ra - 1);
                lemma_div_is_ordered(0, a as int, pi);
                lemma_div_nonincreasing(a as int, pi);
            }
            -(qa as i128) - 1
        }
    }
}

impl Sbits {
    /// Build a bit vector of width `len` from the low `len` bits of the
    /// two's complement representation of `q`.
    pub fn new_from_int(q: i128, len: u32) -> (r: Sbits)
        requires
            len <= 64,
        ensures
            r.wf(),
            r.width() == len,
            r.value() as int == (q as int) % (pow2(len as nat) as int),
    {
        let t = q as u64;
        proof {
            lemma2_to64();
            lemma2_to64_rest();
            lemma_i128_as_u64(q);
            lemma_small_mod(t as nat, pow2(64));
            lemma_mod_of_wrap_is_mod(t as int, q as int, len);
            lemma_pow2_pos(len as nat);
            lemma_mod_bound(q as int, pow2(len as nat) as int);
        }
        Sbits::new(t, len)
    }

    /// Extract `length` bits of the two's complement representation of `n`,
    /// starting at bit `from`.
    pub fn get_slice_int(length: u32, n: i128, from: u32) -> (r: Sbits)
        requires
            length <= 64,
        ensures
            r.wf(),
            r.width() == length,
            r.value() as int == ((n as int) / (pow2(from as nat) as int)) % (
            pow2(length as nat) as int),
    {
        let q = floor_div_pow2_i128(n, from);
        Sbits::new_from_int(q, length)
    }

    /// Overwrite, in the 128-bit two's complement representation of `int`,
    /// the `update.width()` bits starting at bit `n` with `update`; the
    /// result is reduced modulo two to the 128.
    pub fn set_slice_int(xint: i128, n: u32, update: Sbits) -> (r: i128)
        requires
            update.wf(),
            n + update.width() <= 128,
        ensures
            (r as int) % (pow2(128) as int) == set_slice_int_value(
                xint as int,
                n as nat,
                update.width() as nat,
                update.value() as nat,
            ) % (pow2(128) as int),
    {
        let uw = update.len();
        proof {
            lemma_pow2_128_value();
            lemma_pow2_pos(n as nat);
            lemma_pow2_pos(uw as nat);
        }
        if uw == 0 {
            proof {
                lemma2_to64();
                let q = (xint as int) / (pow2(n as nat) as int);
                assert(q % 1int == 0) by {
                    lemma_mod_bound(q, 1int);
                }
            }
            return xint;
        }
        // n <= 127 because n + uw <= 128 and uw >= 1
        let q = floor_div_pow2_i128(xint, n);
        let mslice = Sbits::new_from_int(q, uw);
        let m = mslice.lower_u64();
        let pn = pow2_u128(n);
        let xi = xint as u128;
        let mid = (m as u128).wrapping_mul(pn);
        let upd = (update.lower_u64() as u128).wrapping_mul(pn);
        let cleared = xi.wrapping_sub(mid);
        let res = cleared.wrapping_add(upd);
        proof {
            let p128 = pow2(128) as int;
            let x = xint as int;
            let pni = pow2(n as nat) as int;
            let mi = ((x / pni) % (pow2(uw as nat) as int));
            let uv = update.value() as int;
            lemma_i128_as_u128(xint);
            lemma_pow2_adds(n as nat, uw as nat);
            assert(pow2((n + uw) as nat) <= pow2(128)) by {
                if n + uw < 128 {
                    lemma_pow2_strictly_increases((n + uw) as nat, 128);
                }
            }
            assert(0 <= uv * pni < p128) by (nonlinear_arith)
                requires
                    0 <= uv < pow2(uw as nat),
                    pni == pow2(n as nat),
                    pow2((n + uw) as nat) == pow2(n as nat) * pow2(uw as nat),
                    pow2((n + uw) as nat) <= pow2(128),
                    p128 == pow2(128),
                    pni > 0,
            ;
            lemma_small_mod(mid as nat, pow2(128));
            lemma_small_mod(upd as nat, pow2(128));
            lemma_small_mod(cleared as nat, pow2(128));
            lemma_small_mod(res as nat, pow2(128));
            // mid and upd are the products reduced modulo 2^128
            assert(mid as int == (mi * pni) % p128);
            assert(upd as int == (uv * pni) % p128);
            // subtraction, then addition, modulo 2^128
            assert(cleared as int % p128 == (xi as int - mid as int) % p128) by {
                if xi >= mid {
                    lemma_small_mod(cleared as nat, pow2(128));
                } else {
                    lemma_mod_add_multiples_vanish(xi as int - mid as int, p128);
                }
            }
            lemma_sub_mod_noop_right(xi as int, mi * pni, p128);
            assert((xi as int - mid as int) % p128 == (xi as int - mi * pni) % p128);
            vstd::arithmetic::div_mod::lemma_sub_mod_noop(x, mi * pni, p128);
            assert((xi as int - mi * pni) % p128 == (x - mi * pni) % p128) by {
                vstd::arithmetic::div_mod::lemma_mod_twice(x, p128);
                vstd::arithmetic::div_mod::lemma_sub_mod_noop(x, mi * pni, p128);
                lemma_sub_mod_noop_right((x % p128), mi * pni, p128);
                vstd::arithmetic::div_mod::lemma_mod_twice(x - mi * pni, p128);
            }
            // res == cleared + upd mod 2^128
            assert(res as int % p128 == (cleared as int + upd as int) % p128) by {
                if (cleared as int) + (upd as int) < p128 {
                    lemma_small_mod(res as nat, pow2(128));
                } else {
                    lemma_mod_add_multiples_vanish(cleared as int + upd as int - p128, p128);
                    lemma_small_mod(res as nat, pow2(128));
                }
            }
            lemma_add_mod_noop_right(cleared as int, uv * pni, p128);
            vstd::arithmetic::div_mod::lemma_add_mod_noop(cleared as int, uv * pni, p128);
            vstd::arithmetic::div_mod::lemma_mod_twice(cleared as int, p128);
            assert((cleared as int + upd as int) % p128 == (cleared as int + uv * pni) % p128);
            assert((cleared as int + uv * pni) % p128 == ((x - mi * pni) % p128 + uv * pni) % p128);
            vstd::arithmetic::div_mod::lemma_add_mod_noop((x - mi * pni), uv * pni, p128);
            vstd::arithmetic::div_mod::lemma_mod_twice((x - mi * pni) + uv * pni, p128);
            assert(((x - mi * pni) % p128 + uv * pni) % p128 == (x - mi * pni + uv * pni) % p128)
                by {
                vstd::arithmetic::div_mod::lemma_add_mod_noop((x - mi * pni), uv * pni, p128);
                vstd::arithmetic::div_mod::lemma_mod_twice(uv * pni, p128);
                lemma_small_mod((uv * pni) as nat, pow2(128))
                // uv * pni < 2^128
                ;
            }
            lemma_u128_as_i128(res);
        }
        res as i128
    }
}

/// Replicating an empty bit vector yields the empty value.
proof fn lemma_replicate_zero(times: nat)
    ensures
        replicate_value(0, 0, times) == 0,
    decreases times,
{
    lemma2_to64();
    if times > 0 {
        lemma_replicate_zero((times - 1) as nat);
    }
}

/// A product carrying at least `w` factors of two vanishes modulo two to
/// the `w`.
proof fn lemma_shl_mod_zero(v: nat, w: nat, s: nat)
    requires
        w <= s,
    ensures
        ((v * pow2(s)) as int) % (pow2(w) as int) == 0,
{
    lemma_pow2_pos(w);
    lemma_pow2_pos(s);
    if v == 0 {
        lemma_small_mod(0, pow2(w));
    } else {
        lemma_pow2_adds((s - w) as nat, w);
        assert(v * pow2(s) == (v * pow2((s - w) as nat)) * pow2(w)) by {
            vstd::arithmetic::mul::lemma_mul_is_associative(
                v as int,
                pow2((s - w) as nat) as int,
                pow2(w) as int,
            );
        }
        lemma_mod_multiples_basic((v * pow2((s - w) as nat)) as int, pow2(w) as int);
    }
}

/// Dividing a negative number whose magnitude is at most the divisor
/// yields minus one.
proof fn lemma_div_of_negative_small(x: int, d: int)
    requires
        0 < d,
        -d <= x < 0,
    ensures
        x / d == -1,
{
    lemma_fundamental_div_mod_converse(x, d, -1, x + d);
}

/// Dividing a negative bound by a positive divisor cannot go below the
/// bound itself.
proof fn lemma_div_neg_bound(pw: int, p: int)
    requires
        0 < p,
        0 < pw,
    ensures
        -pw / p >= -pw,
{
    lemma_fundamental_div_mod(-pw, p);
    lemma_mod_bound(-pw, p);
    let q = -pw / p;
    let r = -pw % p;
    assert(p * q == -pw - r && 0 <= r < p && p > 0 && pw > 0 ==> q >= -pw) by (nonlinear_arith);
}

/// Two values congruent modulo two to the 64 are congruent modulo two to
/// any smaller width.
proof fn lemma_mod_of_wrap_is_mod(s: int, raw: int, w: u32)
    requires
        w <= 64,
        s % (pow2(64) as int) == raw % (pow2(64) as int),
    ensures
        s % (pow2(w as nat) as int) == raw % (pow2(w as nat) as int),
{
    let a = pow2(w as nat) as int;
    let b = pow2((64 - w) as nat) as int;
    lemma_pow2_adds(w as nat, (64 - w) as nat);
    lemma_pow2_pos((64 - w) as nat);
    lemma_pow2_pos(w as nat);
    assert(a * b == pow2(64) as int);
    lemma_mod_mod(s, a, b);
    lemma_mod_mod(raw, a, b);
}

} // verus!
