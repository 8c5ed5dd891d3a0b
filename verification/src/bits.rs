//! Pointwise reasoning about 64-bit masks.
//!
//! Everything the rest of the crate proves about bitboards goes through the
//! predicate [`holds`]: bit `sq` of a mask is set. The lemmas below turn
//! the bitwise operators into statements about `holds`.

use vstd::prelude::*;

verus! {

/// Bit `sq` of `b` is set. Squares outside `0..64` are never members.
pub open spec fn holds(b: u64, sq: u8) -> bool {
    sq < 64 && (b >> (sq as u64)) & 1 == 1
}

/// The mask holding exactly square `sq`.
pub open spec fn bit(sq: u8) -> u64 {
    1u64 << (sq as u64)
}

/// No square above or equal to `limit` is set.
pub open spec fn none_from(b: u64, limit: int) -> bool {
    forall|i: u8| limit <= i < 64 ==> !holds(b, i)
}

/// No square below `limit` is set.
pub open spec fn none_below(b: u64, limit: int) -> bool {
    forall|i: u8| 0 <= i < limit ==> !holds(b, i)
}

pub broadcast proof fn lemma_holds_zero(i: u8)
    by (bit_vector)
    ensures
        !#[trigger] holds(0u64, i),
{
}

pub broadcast proof fn lemma_holds_or(a: u64, b: u64, i: u8)
    by (bit_vector)
    ensures
        #[trigger] holds(a | b, i) == (holds(a, i) || holds(b, i)),
{
}

pub broadcast proof fn lemma_holds_and(a: u64, b: u64, i: u8)
    by (bit_vector)
    ensures
        #[trigger] holds(a & b, i) == (holds(a, i) && holds(b, i)),
{
}

pub broadcast proof fn lemma_holds_xor(a: u64, b: u64, i: u8)
    by (bit_vector)
    ensures
        #[trigger] holds(a ^ b, i) == (i < 64 && holds(a, i) != holds(b, i)),
{
}

pub broadcast proof fn lemma_holds_not(a: u64, i: u8)
    by (bit_vector)
    ensures
        #[trigger] holds(!a, i) == (i < 64 && !holds(a, i)),
{
}

pub broadcast proof fn lemma_holds_bit(j: u8, i: u8)
    by (bit_vector)
    requires
        j < 64,
    ensures
        #[trigger] holds(bit(j), i) == (i == j),
{
}

pub broadcast proof fn lemma_holds_shl8(a: u64, i: u8)
    by (bit_vector)
    ensures
        #[trigger] holds(a << 8, i) == (8 <= i && i < 64 && holds(a, (i - 8) as u8)),
{
}

pub broadcast proof fn lemma_holds_shr8(a: u64, i: u8)
    by (bit_vector)
    ensures
        #[trigger] holds(a >> 8, i) == (i < 56 && holds(a, (i + 8) as u8)),
{
}

pub broadcast group group_holds {
    lemma_holds_zero,
    lemma_holds_or,
    lemma_holds_and,
    lemma_holds_xor,
    lemma_holds_not,
    lemma_holds_bit,
    lemma_holds_shl8,
    lemma_holds_shr8,
}

proof fn lemma_xor_zero(a: u64, b: u64)
    by (bit_vector)
    ensures
        a ^ b == 0 ==> a == b,
{
}

/// Two masks with the same members are equal.
pub proof fn lemma_ext(a: u64, b: u64)
    requires
        forall|i: u8| i < 64 ==> holds(a, i) == holds(b, i),
    ensures
        a == b,
{
    broadcast use {group_holds, vstd::std_specs::bits::axiom_u64_trailing_zeros};
    let x = a ^ b;
    if x != 0 {
        let t = vstd::std_specs::bits::u64_trailing_zeros(x);
        assert(t < 64);
        assert(holds(x, t as u8));
        assert(holds(a, t as u8) != holds(b, t as u8));
    }
    lemma_xor_zero(a, b);
}

/// Clearing a member makes the mask smaller as a number.
pub proof fn lemma_clear_decreases(b: u64, sq: u8)
    by (bit_vector)
    requires
        holds(b, sq),
    ensures
        b & !bit(sq) < b,
{
}

/// A mask meets the mask of one square exactly when it holds that square.
pub proof fn lemma_and_bit(b: u64, sq: u8)
    by (bit_vector)
    requires
        sq < 64,
    ensures
        (b & bit(sq) != 0) == holds(b, sq),
{
}

/// The lowest member of `b`, or 64 for the empty mask.
pub open spec fn lsb(b: u64) -> u8 {
    vstd::std_specs::bits::u64_trailing_zeros(b) as u8
}

/// The highest member of `b`, or -1 for the empty mask.
pub open spec fn msb(b: u64) -> i8 {
    (63 - vstd::std_specs::bits::u64_leading_zeros(b)) as i8
}

/// `lsb` is the least member.
pub proof fn lemma_lsb(b: u64)
    ensures
        lsb(b) <= 64,
        b == 0 <==> lsb(b) == 64,
        b != 0 ==> holds(b, lsb(b)),
        none_below(b, lsb(b) as int),
{
    broadcast use vstd::std_specs::bits::axiom_u64_trailing_zeros;
    let t = vstd::std_specs::bits::u64_trailing_zeros(b);
    assert forall|i: u8| 0 <= i < lsb(b) implies !holds(b, i) by {
        assert((b >> (i as u64)) & 1u64 == 0u64);
    }
}

/// `msb` is the greatest member.
pub proof fn lemma_msb(b: u64)
    ensures
        -1 <= msb(b) < 64,
        b == 0 <==> msb(b) == -1,
        b != 0 ==> holds(b, msb(b) as u8),
        none_from(b, msb(b) + 1),
{
    broadcast use vstd::std_specs::bits::axiom_u64_leading_zeros;
    let z = vstd::std_specs::bits::u64_leading_zeros(b);
    if b != 0 {
        let s: u64 = (63 - z) as u64;
        lemma_low_bit(b >> s);
    }
    assert forall|i: u8| msb(b) + 1 <= i < 64 implies !holds(b, i) by {
        assert((b >> (i as u64)) & 1u64 == 0u64);
    }
}

proof fn lemma_low_bit(x: u64)
    by (bit_vector)
    ensures
        x & 1 != 0 ==> x & 1 == 1,
{
}

/// A mask that is not empty has a member.
pub proof fn lemma_nonempty(b: u64)
    requires
        b != 0,
    ensures
        exists|i: u8| holds(b, i),
{
    lemma_lsb(b);
    assert(holds(b, lsb(b)));
}

/// A mask with a member is not empty.
pub proof fn lemma_member_nonzero(b: u64, sq: u8)
    requires
        holds(b, sq),
    ensures
        b != 0,
{
    broadcast use lemma_holds_zero;
}

} // verus!
