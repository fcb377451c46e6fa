//! The index structure of the inverse transform: a radix-2 butterfly network
//! over a line of `2^stages` elements that are loaded in bit-reversed order.
//!
//! One group transforms one line.  Stage `s` pairs elements that lie `2^s`
//! apart: butterfly `j` replaces its top element `a` and its bottom element
//! `b` by `a + w b` and `a - w b`, where `w` is the root of unity that the
//! twiddle index selects.  What is decided here is which elements meet and
//! which root they use; the complex arithmetic is left to the caller.

use vstd::prelude::*;
use vstd::arithmetic::power2::{
    lemma2_to64, lemma_pow2_adds, lemma_pow2_pos, lemma_pow2_unfold, pow2,
};
use vstd::arithmetic::div_mod::{lemma_fundamental_div_mod, lemma_fundamental_div_mod_converse};

verus! {

/// The lowest `bits` bits of `i` in reverse order.
pub open spec fn reversed_bits(i: nat, bits: nat) -> nat
    decreases bits,
{
    if bits == 0 {
        0
    } else {
        (i % 2) * pow2((bits - 1) as nat) + reversed_bits(i / 2, (bits - 1) as nat)
    }
}

/// A reversal of `bits` bits is a number of `bits` bits.
pub proof fn lemma_reversed_bits_bound(i: nat, bits: nat)
    ensures
        reversed_bits(i, bits) < pow2(bits),
    decreases bits,
{
    if bits == 0 {
        lemma2_to64();
    } else {
        lemma_reversed_bits_bound(i / 2, (bits - 1) as nat);
        lemma_pow2_unfold(bits);
        assert((i % 2) * pow2((bits - 1) as nat) <= pow2((bits - 1) as nat)) by (nonlinear_arith)
            requires
                i % 2 <= 1,
        ;
    }
}

/// Reversal moves the highest bit to the lowest place and reverses the rest
/// above it.
proof fn lemma_reversed_high_bit(high: nat, low: nat, bits: nat)
    requires
        bits >= 1,
        high <= 1,
        low < pow2((bits - 1) as nat),
    ensures
        reversed_bits(high * pow2((bits - 1) as nat) + low, bits) == 2 * reversed_bits(
            low,
            (bits - 1) as nat,
        ) + high,
    decreases bits,
{
    let x = high * pow2((bits - 1) as nat) + low;
    if bits == 1 {
        lemma2_to64();
    } else {
        let p = pow2((bits - 2) as nat);
        lemma_pow2_unfold((bits - 1) as nat);
        assert(x % 2 == low % 2 && x / 2 == high * p + low / 2) by {
            lemma_fundamental_div_mod_converse(
                x as int,
                2,
                (high * p + low / 2) as int,
                (low % 2) as int,
            );
        }
        lemma_reversed_high_bit(high, low / 2, (bits - 1) as nat);
    }
}

/// Reversing twice gives the index back, so reversal permutes the indices of
/// a line.
pub proof fn lemma_reversed_bits_involution(i: nat, bits: nat)
    requires
        i < pow2(bits),
    ensures
        reversed_bits(i, bits) < pow2(bits),
        reversed_bits(reversed_bits(i, bits), bits) == i,
    decreases bits,
{
    lemma_reversed_bits_bound(i, bits);
    if bits == 0 {
        lemma2_to64();
    } else {
        lemma_pow2_unfold(bits);
        lemma_reversed_bits_involution(i / 2, (bits - 1) as nat);
        lemma_reversed_high_bit(i % 2, reversed_bits(i / 2, (bits - 1) as nat), bits);
    }
}

/// `2^exponent` as a machine number.
pub fn power_of_two(exponent: u32) -> (p: u32)
    requires
        exponent < 32,
    ensures
        p == pow2(exponent as nat),
{
    proof {
        lemma2_to64();
        vstd::bits::lemma_u32_shl_is_mul(1, exponent);
    }
    1u32 << exponent
}

/// The lowest `bits` bits of `i` in reverse order: the element that position
/// `i` of a line of `2^bits` elements is loaded from.
pub fn bit_reverse(i: u32, bits: u32) -> (r: u32)
    requires
        bits <= 32,
    ensures
        r == reversed_bits(i as nat, bits as nat),
{
    let mut r: u32 = 0;
    let mut rest: u32 = i;
    let mut done: u32 = 0;
    proof {
        lemma2_to64();
    }
    while done < bits
        invariant
            done <= bits <= 32,
            r < pow2(done as nat),
            reversed_bits(i as nat, bits as nat) == r * pow2((bits - done) as nat) + reversed_bits(
                rest as nat,
                (bits - done) as nat,
            ),
        decreases bits - done,
    {
        proof {
            let left = (bits - done) as nat;
            let p = pow2((left - 1) as nat);
            lemma2_to64();
            assert((2 * r + rest % 2) * p == r * (2 * p) + (rest % 2) * p) by (nonlinear_arith);
        }
        r = 2 * r + rest % 2;
        rest = rest / 2;
        done = done + 1;
    }
    proof {
        assert(r * 1 == r) by (nonlinear_arith);
    }
    r
}

/// A line in the order in which the network reads it: position `i` takes the
/// element at the reversal of `i`.
pub open spec fn bit_reversed<T>(line: Seq<T>, stages: nat) -> Seq<T> {
    Seq::new(line.len(), |i: int| line[reversed_bits(i as nat, stages) as int])
}

/// Brings a line of `2^stages` values into the order in which the network
/// reads it.
pub fn bit_reverse_permute<T: Copy>(line: &Vec<T>, stages: u32) -> (out: Vec<T>)
    requires
        stages < 32,
        line.len() == pow2(stages as nat),
    ensures
        out@ == bit_reversed(line@, stages as nat),
{
    let n: usize = line.len();
    let mut out: Vec<T> = Vec::with_capacity(n);
    let mut i: usize = 0;
    while i < n
        invariant
            i <= n,
            n == line.len(),
            n == pow2(stages as nat),
            stages < 32,
            out.len() == i,
            forall|k: int| 0 <= k < i ==> out@[k] == line@[reversed_bits(k as nat, stages as nat) as int],
        decreases n - i,
    {
        proof {
            lemma_reversed_bits_bound(i as nat, stages as nat);
            lemma2_to64();
        }
        let from: u32 = bit_reverse(i as u32, stages);
        out.push(line[from as usize]);
        i = i + 1;
    }
    out
}

/// Reordering twice gives the line back.
pub proof fn lemma_bit_reversed_involution<T>(line: Seq<T>, stages: nat)
    requires
        line.len() == pow2(stages),
    ensures
        bit_reversed(bit_reversed(line, stages), stages) == line,
{
    let once = bit_reversed(line, stages);
    assert forall|i: int| 0 <= i < line.len() implies bit_reversed(once, stages)[i] == line[i] by {
        lemma_reversed_bits_involution(i as nat, stages);
    }
}

/// Position of the upper element of butterfly `j` of stage `stage`.
pub open spec fn butterfly_top(stage: nat, j: nat) -> nat {
    (j / pow2(stage)) * (2 * pow2(stage)) + j % pow2(stage)
}

/// Position of the lower element of butterfly `j`: `2^stage` below the upper.
pub open spec fn butterfly_bottom(stage: nat, j: nat) -> nat {
    butterfly_top(stage, j) + pow2(stage)
}

/// Exponent of the root of unity of butterfly `j`, as a power of the
/// primitive root of order `2^stages`.
pub open spec fn butterfly_twiddle(stage: nat, j: nat, stages: nat) -> nat {
    (j % pow2(stage)) * pow2((stages - stage - 1) as nat)
}

/// The butterfly of stage `stage` that works on position `p`.
pub open spec fn butterfly_owner(stage: nat, p: nat) -> nat {
    (p / (2 * pow2(stage))) * pow2(stage) + p % pow2(stage)
}

/// Position `p` is the upper element of its butterfly at stage `stage`.
pub open spec fn is_butterfly_top(stage: nat, p: nat) -> bool {
    (p / pow2(stage)) % 2 == 0
}

/// What one invocation of a stage combines.
#[derive(Clone, Copy, Debug, PartialEq, Eq, Structural)]
pub struct Butterfly {
    /// Position of the upper element.
    pub top: u32,
    /// Position of the lower element.
    pub bottom: u32,
    /// Index of the root of unity in the table of twiddle factors.
    pub twiddle: u32,
}

/// Quotient and remainder of a number written as `q * d + r`.
pub(crate) proof fn lemma_div_mod_of(x: int, d: int, q: int, r: int)
    requires
        d > 0,
        0 <= r < d,
        x == q * d + r,
    ensures
        x / d == q,
        x % d == r,
{
    lemma_fundamental_div_mod_converse(x, d, q, r);
}

/// The elements of a butterfly lie in the line, the upper above the lower,
/// and its twiddle index lies in the table of `2^(stages - 1)` roots.
pub proof fn lemma_butterfly_in_line(stage: nat, j: nat, stages: nat)
    requires
        stage < stages,
        j < pow2((stages - 1) as nat),
    ensures
        butterfly_top(stage, j) < butterfly_bottom(stage, j) < pow2(stages),
        butterfly_twiddle(stage, j, stages) < pow2((stages - 1) as nat),
{
    let h = pow2(stage);
    let g = pow2((stages - stage - 1) as nat);
    let q = j / h;
    let r = j % h;
    lemma_pow2_adds(stage, (stages - stage - 1) as nat);
    lemma_pow2_unfold(stages);
    lemma_fundamental_div_mod(j as int, h as int);
    assert(q < g) by (nonlinear_arith)
        requires
            j == h * q + r,
            0 <= r,
            j < h * g,
            h > 0,
    ;
    assert(q * (2 * h) + 2 * h <= 2 * (h * g)) by (nonlinear_arith)
        requires
            q < g,
            h > 0,
    ;
    assert(r * g < h * g) by (nonlinear_arith)
        requires
            r < h,
            g > 0,
    ;
}

/// Every position of the line belongs to exactly one butterfly of a stage:
/// to its owner, as the upper element or as the lower.
pub proof fn lemma_owner_works_on_position(stage: nat, p: nat, stages: nat)
    requires
        stage < stages,
        p < pow2(stages),
    ensures
        butterfly_owner(stage, p) < pow2((stages - 1) as nat),
        is_butterfly_top(stage, p) ==> butterfly_top(stage, butterfly_owner(stage, p)) == p,
        !is_butterfly_top(stage, p) ==> butterfly_bottom(stage, butterfly_owner(stage, p)) == p,
{
    let h = pow2(stage);
    let g = pow2((stages - stage - 1) as nat);
    lemma_pow2_pos(stage);
    lemma_pow2_adds(stage, (stages - stage - 1) as nat);
    lemma_pow2_unfold(stages);
    let big = p / (2 * h);
    let t = p % (2 * h);
    lemma_fundamental_div_mod(p as int, (2 * h) as int);
    assert(big < g) by (nonlinear_arith)
        requires
            p == (2 * h) * big + t,
            0 <= t,
            p < 2 * (h * g),
            h > 0,
    ;
    let low = if t < h { t } else { (t - h) as nat };
    let bit: nat = if t < h { 0 } else { 1 };
    assert(p == (2 * big + bit) * h + low) by (nonlinear_arith)
        requires
            p == (2 * h) * big + t,
            t == bit * h + low,
    ;
    lemma_div_mod_of(p as int, h as int, (2 * big + bit) as int, low as int);
    let owner = butterfly_owner(stage, p);
    lemma_div_mod_of(owner as int, h as int, big as int, low as int);
    assert(big * h + low < h * g) by (nonlinear_arith)
        requires
            big < g,
            low < h,
    ;
    assert(big * (2 * h) == (2 * h) * big) by (nonlinear_arith);
}

/// A butterfly is the owner of both its elements and of no other position:
/// distinct butterflies of a stage share no element.
pub proof fn lemma_butterfly_owns_its_elements(stage: nat, j: nat, stages: nat)
    requires
        stage < stages,
        j < pow2((stages - 1) as nat),
    ensures
        butterfly_owner(stage, butterfly_top(stage, j)) == j,
        butterfly_owner(stage, butterfly_bottom(stage, j)) == j,
        is_butterfly_top(stage, butterfly_top(stage, j)),
        !is_butterfly_top(stage, butterfly_bottom(stage, j)),
{
    let h = pow2(stage);
    let q = j / h;
    let r = j % h;
    lemma_pow2_pos(stage);
    lemma_fundamental_div_mod(j as int, h as int);
    let top = butterfly_top(stage, j);
    let bottom = butterfly_bottom(stage, j);
    assert(q * (2 * h) == (2 * q) * h) by (nonlinear_arith);
    assert(q * (2 * h) + h == (2 * q + 1) * h) by (nonlinear_arith);
    lemma_div_mod_of(top as int, (2 * h) as int, q as int, r as int);
    lemma_div_mod_of(top as int, h as int, (2 * q) as int, r as int);
    lemma_div_mod_of(bottom as int, (2 * h) as int, q as int, (r + h) as int);
    lemma_div_mod_of(bottom as int, h as int, (2 * q + 1) as int, r as int);
}

/// The elements and the twiddle index of butterfly `j` of stage `stage` in a
/// network of `stages` stages.
pub fn butterfly(stage: u32, j: u32, stages: u32) -> (b: Butterfly)
    requires
        stage < stages < 32,
        j < pow2((stages - 1) as nat),
    ensures
        b.top == butterfly_top(stage as nat, j as nat),
        b.bottom == butterfly_bottom(stage as nat, j as nat),
        b.twiddle == butterfly_twiddle(stage as nat, j as nat, stages as nat),
        b.top < b.bottom < pow2(stages as nat),
        b.twiddle < pow2((stages - 1) as nat),
{
    proof {
        lemma_butterfly_in_line(stage as nat, j as nat, stages as nat);
        lemma2_to64();
    }
    let half: u32 = power_of_two(stage);
    let stride: u32 = power_of_two(stages - stage - 1);
    let block: u32 = j / half;
    let offset: u32 = j % half;
    proof {
        assert(block * half <= block * (2 * half)) by (nonlinear_arith);
    }
    let top: u32 = block * half * 2 + offset;
    proof {
        assert(block * half * 2 == block * (2 * half)) by (nonlinear_arith);
    }
    Butterfly { top, bottom: top + half, twiddle: offset * stride }
}

/// The butterfly of stage `stage` that works on position `p`, and whether
/// `p` is its upper element.
pub fn owning_butterfly(stage: u32, p: u32, stages: u32) -> (owner: (u32, bool))
    requires
        stage < stages < 32,
        p < pow2(stages as nat),
    ensures
        owner.0 == butterfly_owner(stage as nat, p as nat),
        owner.1 == is_butterfly_top(stage as nat, p as nat),
        owner.0 < pow2((stages - 1) as nat),
{
    proof {
        lemma_owner_works_on_position(stage as nat, p as nat, stages as nat);
        lemma2_to64();
    }
    let half: u32 = power_of_two(stage);
    let block: u32 = p / (2 * half);
    let offset: u32 = p % half;
    (block * half + offset, (p / half) % 2 == 0)
}

} // verus!
