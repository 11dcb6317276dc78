//! The identities the slice family guarantees, stated over the
//! mathematical model of the bit-vector domain.

use vstd::prelude::*;
use vstd::arithmetic::power2::{pow2, lemma2_to64, lemma_pow2_pos};
use vstd::arithmetic::div_mod::{lemma_small_mod, lemma_div_basics};
use crate::bitvector::{Sbits, set_slice_value};

verus! {

/// Slicing a bit vector from position zero for its full width yields the
/// value unchanged: the identity behind the full-width slice of the slice
/// operations.
pub proof fn lemma_slice_identity(b: Sbits)
    requires
        b.wf(),
    ensures
        ((b.value() as nat) / pow2(0)) % pow2(b.width() as nat) == b.value() as nat,
{
    lemma2_to64();
    lemma_div_basics(b.value() as int);
    lemma_pow2_pos(b.width() as nat);
    lemma_small_mod(b.value() as nat, pow2(b.width() as nat));
}

/// Overwriting a bit vector from position zero with an update of its full
/// width yields the update: the identity behind the full-width set slice.
pub proof fn lemma_set_slice_identity(b: Sbits, u: Sbits)
    requires
        b.wf(),
        u.wf(),
        u.width() == b.width(),
    ensures
        set_slice_value(b.value() as nat, 0, u.width() as nat, u.value() as nat) == u.value(),
{
    lemma2_to64();
    lemma_div_basics(b.value() as int);
    lemma_pow2_pos(b.width() as nat);
    lemma_small_mod(b.value() as nat, pow2(b.width() as nat));
    assert(((b.value() as nat) / pow2(0)) % pow2(u.width() as nat) == b.value() as nat);
    assert(set_slice_value(b.value() as nat, 0, u.width() as nat, u.value() as nat) == b.value()
        - b.value() + u.value() * pow2(0)) by {
        lemma2_to64();
    }
    assert(u.value() * pow2(0) == u.value()) by {
        lemma2_to64();
    }
}

/// Widening a bit vector to its own width changes nothing: the zero
/// extension to the current length is the identity. This holds directly of
/// the zero-extension operation's contract, whose value and width are
/// unchanged whenever the target length equals the width.
pub proof fn lemma_zero_extend_identity(b: Sbits)
    requires
        b.wf(),
    ensures
        (b.value() as nat) % pow2(b.width() as nat) == b.value() as nat,
{
    lemma_pow2_pos(b.width() as nat);
    lemma_small_mod(b.value() as nat, pow2(b.width() as nat));
}

} // verus!
