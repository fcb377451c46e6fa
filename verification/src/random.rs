//! The seeds of the random samples of the initial spectrum.
//!
//! Every texel of every spectrum slot draws its own complex Gaussian sample.
//! The sample is made from two words that depend on nothing but the global
//! seed, the coordinates of the texel and the slot, so a field can be
//! generated again, texel by texel and in any order, with the same result.

use vstd::prelude::*;

verus! {

/// One step of the word generator: a multiply-and-add, then a shift by an
/// amount that the highest bits choose, a multiplication and a last shift,
/// each folded in by exclusive or.
pub open spec fn mixed(state: u32) -> u32 {
    let s = stepped(state);
    let word = scaled(s ^ (s >> (((s >> 28) + 4) as u32)));
    word ^ (word >> 22)
}

/// The multiply-and-add of the generator, modulo `2^32`.
pub open spec fn stepped(state: u32) -> u32 {
    ((state as u64 * 747796405 + 2891336453) % 0x1_0000_0000) as u32
}

/// The multiplication of the generator, modulo `2^32`.
pub open spec fn scaled(word: u32) -> u32 {
    ((word as u64 * 277803737) % 0x1_0000_0000) as u32
}

/// One step of the word generator.
pub fn mix(state: u32) -> (word: u32)
    ensures
        word == mixed(state),
{
    let s: u32 = ((state as u64 * 747796405 + 2891336453) % 0x1_0000_0000) as u32;
    let high: u32 = s >> 28;
    assert(high < 16) by (bit_vector)
        requires
            high == s >> 28,
    ;
    let word: u32 = (((s ^ (s >> (high + 4))) as u64 * 277803737) % 0x1_0000_0000) as u32;
    word ^ (word >> 22)
}

/// The state that a step of the generator started from.
pub open spec fn unmixed(word: u32) -> u32 {
    let w = word ^ (word >> 22);
    let v = ((w as u64 * 2897767785) % 0x1_0000_0000) as u32;
    let by = ((v >> 28) + 4) as u32;
    let s = unshifted(v, by);
    let t = ((s as u64 + 0x1_0000_0000 - 2891336453) % 0x1_0000_0000) as u32;
    ((t as u64 * 3425435293) % 0x1_0000_0000) as u32
}

/// The word whose exclusive or with itself shifted right by `by` is `v`, for a
/// shift of at least four bits.
pub open spec fn unshifted(v: u32, by: u32) -> u32 {
    v ^ (v >> by) ^ (v >> ((2 * by) as u32)) ^ (v >> ((3 * by) as u32)) ^ (v >> ((4 * by) as u32))
        ^ (v >> ((5 * by) as u32)) ^ (v >> ((6 * by) as u32)) ^ (v >> ((7 * by) as u32))
}

/// A step of the generator can be undone, so it maps different states to
/// different words.
pub proof fn lemma_mix_is_a_permutation(a: u32, b: u32)
    ensures
        unmixed(mixed(a)) == a,
        mixed(a) == mixed(b) ==> a == b,
{
    lemma_mix_undone(a);
    lemma_mix_undone(b);
}

proof fn lemma_mix_undone(a: u32)
    ensures
        unmixed(mixed(a)) == a,
{
    let s = stepped(a);
    let x = s ^ (s >> (((s >> 28) + 4) as u32));
    let word = scaled(x);
    let out = word ^ (word >> 22);
    let w = out ^ (out >> 22);
    assert(w == word) by (bit_vector)
        requires
            out == word ^ (word >> 22),
            w == out ^ (out >> 22),
    ;
    let v = ((w as u64 * 2897767785) % 0x1_0000_0000) as u32;
    assert(v == x) by (bit_vector)
        requires
            w == ((x as u64 * 277803737) % 0x1_0000_0000) as u32,
            v == ((w as u64 * 2897767785) % 0x1_0000_0000) as u32,
    ;
    let by = ((v >> 28) + 4) as u32;
    let r = unshifted(v, by);
    assert(r == s) by (bit_vector)
        requires
            v == s ^ (s >> (((s >> 28) + 4) as u32)),
            by == ((v >> 28) + 4) as u32,
            r == v ^ (v >> by) ^ (v >> ((2 * by) as u32)) ^ (v >> ((3 * by) as u32)) ^ (v >> ((4
                * by) as u32)) ^ (v >> ((5 * by) as u32)) ^ (v >> ((6 * by) as u32)) ^ (v >> ((7
                * by) as u32)),
    ;
    let product = ((a as u64 * 747796405) % 0x1_0000_0000) as u32;
    let t = ((r as u64 + 0x1_0000_0000 - 2891336453) % 0x1_0000_0000) as u32;
    assert(r == ((product as u64 + 2891336453) % 0x1_0000_0000) as u32) by (bit_vector)
        requires
            r == ((a as u64 * 747796405 + 2891336453) % 0x1_0000_0000) as u32,
            product == ((a as u64 * 747796405) % 0x1_0000_0000) as u32,
    ;
    let back = ((t as u64 * 3425435293) % 0x1_0000_0000) as u32;
    assert(back == a) by (bit_vector)
        requires
            t == ((a as u64 * 747796405) % 0x1_0000_0000) as u32,
            back == ((t as u64 * 3425435293) % 0x1_0000_0000) as u32,
    ;
}

/// The two words from which the sample of a texel is made.
#[derive(Clone, Copy, Debug, PartialEq, Eq, Structural)]
pub struct SampleWords {
    pub first: u32,
    pub second: u32,
}

/// The first word of the sample at texel `(x, y)` of slot `slot`: the seed,
/// the column, the row and the slot folded in one after the other, with a
/// step of the generator after each.
pub open spec fn first_word(seed: u32, x: u32, y: u32, slot: u32) -> u32 {
    mixed(mixed(mixed(mixed(seed) ^ x) ^ y) ^ slot)
}

/// The words of the sample at texel `(x, y)` of slot `slot` under the global
/// seed `seed`.
pub fn sample_words(seed: u32, x: u32, y: u32, slot: u32) -> (words: SampleWords)
    ensures
        words.first == first_word(seed, x, y, slot),
        words.second == mixed(words.first),
{
    let first: u32 = mix(mix(mix(mix(seed) ^ x) ^ y) ^ slot);
    SampleWords { first, second: mix(first) }
}

/// Two texels that differ in one coordinate only, or two slots at one texel,
/// never draw the same words; nor does one texel under two seeds.
pub proof fn lemma_samples_differ(seed: u32, x: u32, y: u32, slot: u32, other: u32)
    ensures
        other != seed ==> first_word(other, x, y, slot) != first_word(seed, x, y, slot),
        other != x ==> first_word(seed, other, y, slot) != first_word(seed, x, y, slot),
        other != y ==> first_word(seed, x, other, slot) != first_word(seed, x, y, slot),
        other != slot ==> first_word(seed, x, y, other) != first_word(seed, x, y, slot),
{
    let a = mixed(seed);
    let b = mixed(a ^ x);
    let c = mixed(b ^ y);
    lemma_fold_is_injective(c, slot, c, other);
    lemma_fold_is_injective(b, y, b, other);
    lemma_fold_is_injective(mixed(b ^ other) , slot, c, slot);
    lemma_fold_is_injective(a, x, a, other);
    lemma_fold_is_injective(mixed(a ^ other), y, b, y);
    lemma_fold_is_injective(mixed(mixed(a ^ other) ^ y), slot, c, slot);
    lemma_mix_is_a_permutation(seed, other);
    let a2 = mixed(other);
    lemma_fold_is_injective(a2, x, a, x);
    lemma_fold_is_injective(mixed(a2 ^ x), y, b, y);
    lemma_fold_is_injective(mixed(mixed(a2 ^ x) ^ y), slot, c, slot);
}

/// Folding a value into a state and stepping gives the same word only for the
/// same state and value, when either the states or the values agree.
proof fn lemma_fold_is_injective(state: u32, value: u32, other_state: u32, other_value: u32)
    ensures
        mixed(state ^ value) == mixed(other_state ^ other_value) && state == other_state ==> value
            == other_value,
        mixed(state ^ value) == mixed(other_state ^ other_value) && value == other_value ==> state
            == other_state,
{
    lemma_mix_is_a_permutation(state ^ value, other_state ^ other_value);
    assert(state ^ value == other_state ^ other_value && state == other_state ==> value
        == other_value) by (bit_vector);
    assert(state ^ value == other_state ^ other_value && value == other_value ==> state
        == other_state) by (bit_vector);
}

} // verus!
