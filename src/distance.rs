use vstd::prelude::*;

verus! {

/// Bit 31 of a 32-bit word: the sign bit of an IEEE-754 single.
pub const SIGN_BIT: u32 = 0x8000_0000;

/// The key under which the IEEE-754 single with the given bits sorts.
///
/// Non-negative values get the sign bit set; negative values have all bits
/// flipped. Unsigned comparison of the keys is then the IEEE total order,
/// the order of `total_cmp` on single-precision values, on the values themselves.
pub open spec fn order_key(bits: u32) -> u32 {
    if bits & SIGN_BIT == 0 {
        bits | SIGN_BIT
    } else {
        !bits
    }
}

/// A cosine distance, held as the raw bits of the single that the index
/// reported. Smaller means more similar.
#[derive(Clone, Copy, Debug, PartialEq, Eq, Structural)]
pub struct Distance {
    pub bits: u32,
}

impl Distance {
    pub open spec fn key(self) -> u32 {
        order_key(self.bits)
    }

    pub fn from_bits(bits: u32) -> (r: Distance)
        ensures
            r.bits == bits,
    {
        Distance { bits }
    }

    pub fn to_bits(&self) -> (r: u32)
        ensures
            r == self.bits,
    {
        self.bits
    }

    /// The key under which this distance sorts.
    pub fn sort_key(&self) -> (r: u32)
        ensures
            r == self.key(),
    {
        if self.bits & SIGN_BIT == 0 {
            self.bits | SIGN_BIT
        } else {
            !self.bits
        }
    }
}

/// Distinct bit patterns get distinct keys, so ordering by key loses no
/// distinction between distances.
pub proof fn lemma_order_key_injective(a: u32, b: u32)
    ensures
        order_key(a) == order_key(b) ==> a == b,
{
    assert(((a & 0x8000_0000u32 == 0 && b & 0x8000_0000u32 == 0) && (a | 0x8000_0000u32) == (b
        | 0x8000_0000u32)) ==> a == b) by (bit_vector);
    assert(((a & 0x8000_0000u32 != 0 && b & 0x8000_0000u32 != 0) && !a == !b) ==> a == b)
        by (bit_vector);
    assert((a & 0x8000_0000u32 == 0 && b & 0x8000_0000u32 != 0) ==> (a | 0x8000_0000u32) != !b)
        by (bit_vector);
    assert((a & 0x8000_0000u32 != 0 && b & 0x8000_0000u32 == 0) ==> !a != (b | 0x8000_0000u32))
        by (bit_vector);
}

/// A non-negative distance sorts above every negative one, and among
/// non-negative distances the key keeps the order of the bits (which for
/// non-negative singles is their numeric order).
pub proof fn lemma_order_key_non_negative(a: u32, b: u32)
    requires
        a & SIGN_BIT == 0,
    ensures
        b & SIGN_BIT != 0 ==> order_key(b) < order_key(a),
        b & SIGN_BIT == 0 ==> (order_key(a) < order_key(b) <==> a < b),
{
    assert((a & 0x8000_0000u32 == 0 && b & 0x8000_0000u32 != 0) ==> !b < (a | 0x8000_0000u32))
        by (bit_vector);
    assert((a & 0x8000_0000u32 == 0 && b & 0x8000_0000u32 == 0) ==> ((a | 0x8000_0000u32) < (b
        | 0x8000_0000u32) <==> a < b)) by (bit_vector);
}

} // verus!
