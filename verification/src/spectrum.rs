//! The initial spectrum field and the kernels that only move and negate its
//! values: the packing of mirrored conjugates and the checkerboard of signs.
//!
//! Values are carried as the bit patterns of IEEE 754 single precision
//! numbers.  Negating such a number flips its sign bit and nothing else, so
//! conjugation and sign correction are exact on the patterns and need no
//! arithmetic.

use vstd::prelude::*;
use crate::grid::{
    checkerboard_negative, lemma_mirror_position_involution, mirror_position, mirror_texel,
};

verus! {

/// The sign bit of a single precision number.
pub const SIGN_BIT: u32 = 0x8000_0000;

/// The pattern of the negated number.
pub open spec fn negated(bits: u32) -> u32 {
    bits ^ SIGN_BIT
}

/// The pattern of the negated number.
pub fn negate(bits: u32) -> (flipped: u32)
    ensures
        flipped == negated(bits),
{
    bits ^ SIGN_BIT
}

/// Negation changes the sign bit, keeps every other bit, and undoes itself.
pub proof fn lemma_negation(bits: u32)
    ensures
        negated(negated(bits)) == bits,
        negated(bits) != bits,
        negated(bits) & 0x7fff_ffff == bits & 0x7fff_ffff,
        negated(bits) & SIGN_BIT != bits & SIGN_BIT,
{
    assert((bits ^ 0x8000_0000u32) ^ 0x8000_0000u32 == bits) by (bit_vector);
    assert((bits ^ 0x8000_0000u32) & 0x7fff_ffffu32 == bits & 0x7fff_ffffu32) by (bit_vector);
    assert((bits ^ 0x8000_0000u32) & 0x8000_0000u32 != bits & 0x8000_0000u32) by (bit_vector);
}

/// A complex number, each part as the pattern of a single precision number.
#[derive(Clone, Copy, Debug, PartialEq, Eq, Structural)]
pub struct ComplexBits {
    pub re: u32,
    pub im: u32,
}

impl ComplexBits {
    /// The complex conjugate: the imaginary part negated.
    pub open spec fn conjugated(self) -> ComplexBits {
        ComplexBits { re: self.re, im: negated(self.im) }
    }

    /// The complex conjugate.
    pub fn conjugate(self) -> (c: ComplexBits)
        ensures
            c == self.conjugated(),
    {
        ComplexBits { re: self.re, im: negate(self.im) }
    }
}

/// Conjugating twice gives the number back.
pub proof fn lemma_conjugate_involution(z: ComplexBits)
    ensures
        z.conjugated().conjugated() == z,
{
    lemma_negation(z.im);
}

/// One texel of the initial spectrum: the amplitude of its own wavevector
/// and, once packed, the conjugate of the amplitude of the opposite one.
#[derive(Clone, Copy, Debug, PartialEq, Eq, Structural)]
pub struct SpectrumTexel {
    pub amplitude: ComplexBits,
    pub mirrored_conjugate: ComplexBits,
}

/// The field after packing: every amplitude as it was, and beside it the
/// conjugate of the amplitude at the mirrored texel.
pub open spec fn packed(field: Seq<SpectrumTexel>, n: nat) -> Seq<SpectrumTexel> {
    Seq::new(
        field.len(),
        |i: int|
            SpectrumTexel {
                amplitude: field[i].amplitude,
                mirrored_conjugate: field[mirror_position(i as nat, n) as int].amplitude.conjugated(),
            },
    )
}

/// The field is Hermitian: for every wavevector `k`, what the texel of `-k`
/// holds for its mirror is the conjugate of the amplitude of `k`.
pub open spec fn hermitian(field: Seq<SpectrumTexel>, n: nat) -> bool {
    &&& field.len() == n * n
    &&& forall|i: int|
        0 <= i < n * n ==> field[mirror_position(i as nat, n) as int].mirrored_conjugate == (
        #[trigger] field[i]).amplitude.conjugated()
}

/// Packing makes any field Hermitian, and packing a Hermitian field changes
/// nothing.
pub proof fn lemma_packed_is_hermitian(field: Seq<SpectrumTexel>, n: nat)
    requires
        field.len() == n * n,
    ensures
        hermitian(packed(field, n), n),
        hermitian(field, n) ==> packed(field, n) == field,
{
    let p = packed(field, n);
    assert forall|i: int| 0 <= i < n * n implies p[mirror_position(i as nat, n) as int].mirrored_conjugate
        == (#[trigger] p[i]).amplitude.conjugated() by {
        lemma_mirror_position_involution(i as nat, n);
    }
    if hermitian(field, n) {
        assert forall|i: int| 0 <= i < n * n implies p[i] == field[i] by {
            lemma_mirror_position_involution(i as nat, n);
        }
    }
}

/// In a Hermitian field the symmetry reads both ways: the amplitude of `k` is
/// also the conjugate of what the texel of `-k` holds for its mirror.
pub proof fn lemma_hermitian_is_symmetric(field: Seq<SpectrumTexel>, n: nat, i: nat)
    requires
        hermitian(field, n),
        i < n * n,
    ensures
        mirror_position(i, n) < n * n,
        field[i as int].mirrored_conjugate == field[mirror_position(i, n) as int].amplitude.conjugated(),
        field[i as int].amplitude == field[mirror_position(i, n) as int].mirrored_conjugate.conjugated(),
{
    lemma_mirror_position_involution(i, n);
    lemma_conjugate_involution(field[i as int].amplitude);
}

/// Stores beside every amplitude of a field of edge `n` the conjugate of the
/// amplitude at the mirrored texel.  Amplitudes are left as they are.
pub fn pack_spectrum_conjugates(field: &mut Vec<SpectrumTexel>, n: usize)
    requires
        old(field).len() == n * n,
    ensures
        final(field)@ == packed(old(field)@, n as nat),
        hermitian(final(field)@, n as nat),
{
    let count: usize = field.len();
    let mut i: usize = 0;
    while i < count
        invariant
            i <= count,
            count == n * n,
            field.len() == count,
            old(field).len() == count,
            forall|k: int| 0 <= k < count ==> (#[trigger] field@[k]).amplitude == old(field)@[k].amplitude,
            forall|k: int|
                0 <= k < i ==> (#[trigger] field@[k]).mirrored_conjugate == old(field)@[mirror_position(
                    k as nat,
                    n as nat,
                ) as int].amplitude.conjugated(),
        decreases count - i,
    {
        let m: usize = mirror_texel(i, n);
        let own: ComplexBits = field[i].amplitude;
        let other: ComplexBits = field[m].amplitude;
        field.set(i, SpectrumTexel { amplitude: own, mirrored_conjugate: other.conjugate() });
        i = i + 1;
    }
    proof {
        lemma_packed_is_hermitian(old(field)@, n as nat);
    }
}

/// The pattern with the sign of the checkerboard applied: negated where
/// `x + y` is odd.
pub open spec fn checkerboard_signed(bits: u32, x: nat, y: nat) -> u32 {
    if checkerboard_negative(x, y) {
        negated(bits)
    } else {
        bits
    }
}

/// A map with the checkerboard applied to every value.
pub open spec fn recentred(values: Seq<u32>, n: nat) -> Seq<u32> {
    Seq::new(
        values.len(),
        |i: int| checkerboard_signed(values[i], (i % (n as int)) as nat, (i / (n as int)) as nat),
    )
}

/// Multiplies every value of a transformed map of edge `n` by `(-1)^(x + y)`.
pub fn apply_checkerboard(values: &mut Vec<u32>, n: usize)
    requires
        old(values).len() == n * n,
    ensures
        final(values)@ == recentred(old(values)@, n as nat),
{
    let count: usize = values.len();
    let mut i: usize = 0;
    while i < count
        invariant
            i <= count,
            count == n * n,
            values.len() == count,
            old(values).len() == count,
            forall|k: int| i <= k < count ==> values@[k] == old(values)@[k],
            forall|k: int|
                0 <= k < i ==> values@[k] == checkerboard_signed(
                    old(values)@[k],
                    (k % (n as int)) as nat,
                    (k / (n as int)) as nat,
                ),
        decreases count - i,
    {
        let x: usize = i % n;
        let y: usize = i / n;
        if (x % 2) != (y % 2) {
            let flipped: u32 = negate(values[i]);
            values.set(i, flipped);
        }
        i = i + 1;
    }
}

/// Applying the checkerboard twice gives the map back.
pub proof fn lemma_checkerboard_involution(values: Seq<u32>, n: nat)
    ensures
        recentred(recentred(values, n), n) == values,
{
    let once = recentred(values, n);
    assert forall|i: int| 0 <= i < values.len() implies recentred(once, n)[i] == values[i] by {
        lemma_negation(values[i]);
    }
}

/// The pattern is that of a zero, of either sign.
pub open spec fn is_zero(bits: u32) -> bool {
    bits & 0x7fff_ffff == 0
}

/// Whether the pattern is that of a zero, of either sign.
pub fn is_zero_bits(bits: u32) -> (zero: bool)
    ensures
        zero == is_zero(bits),
        zero <==> bits == 0 || bits == SIGN_BIT,
{
    assert(bits & 0x7fff_ffff == 0 <==> bits == 0 || bits == 0x8000_0000u32) by (bit_vector);
    bits & 0x7fff_ffff == 0
}

/// Negation keeps zero zero and nothing else.
pub proof fn lemma_negation_keeps_zero(bits: u32)
    ensures
        is_zero(negated(bits)) == is_zero(bits),
{
    lemma_negation(bits);
}

/// With every amplitude zero, packing leaves nothing in the field but zeros.
pub proof fn lemma_packing_keeps_zero(field: Seq<SpectrumTexel>, n: nat)
    requires
        field.len() == n * n,
        forall|i: int|
            0 <= i < field.len() ==> is_zero((#[trigger] field[i]).amplitude.re) && is_zero(
                field[i].amplitude.im,
            ),
    ensures
        forall|i: int|
            0 <= i < field.len() ==> {
                let texel = #[trigger] packed(field, n)[i];
                &&& is_zero(texel.amplitude.re)
                &&& is_zero(texel.amplitude.im)
                &&& is_zero(texel.mirrored_conjugate.re)
                &&& is_zero(texel.mirrored_conjugate.im)
            },
{
    assert forall|i: int| 0 <= i < field.len() implies {
        let texel = #[trigger] packed(field, n)[i];
        &&& is_zero(texel.amplitude.re)
        &&& is_zero(texel.amplitude.im)
        &&& is_zero(texel.mirrored_conjugate.re)
        &&& is_zero(texel.mirrored_conjugate.im)
    } by {
        lemma_mirror_position_involution(i as nat, n);
        let m = mirror_position(i as nat, n) as int;
        lemma_negation_keeps_zero(field[m].amplitude.im);
    }
}

/// The checkerboard turns zeros into zeros and nothing else into zero.
pub proof fn lemma_checkerboard_keeps_zero(values: Seq<u32>, n: nat, i: int)
    requires
        0 <= i < values.len(),
    ensures
        is_zero(recentred(values, n)[i]) == is_zero(values[i]),
{
    lemma_negation_keeps_zero(values[i]);
}

} // verus!
