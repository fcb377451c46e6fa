//! Addressing of the texels of a square field: row-major positions, the
//! mirrored texel that holds the opposite wavevector, the signed wave index of
//! a texel and the checkerboard of signs that recentres a transformed field.

use vstd::prelude::*;

verus! {

/// The index that holds the negative of frequency `k` in a row of `n`
/// frequencies: `(n - k) mod n`.
pub open spec fn mirror(k: nat, n: nat) -> nat {
    ((n - k) % (n as int)) as nat
}

/// The index that holds the negative of frequency `k` in a row of `n`.
pub fn mirror_index(k: usize, n: usize) -> (m: usize)
    requires
        k < n,
    ensures
        m == mirror(k as nat, n as nat),
        m < n,
        m == if k == 0 { 0 } else { n - k },
{
    if k == 0 {
        proof {
            vstd::arithmetic::div_mod::lemma_mod_self_0(n as int);
        }
        0
    } else {
        proof {
            vstd::arithmetic::div_mod::lemma_small_mod((n - k) as nat, n as nat);
        }
        n - k
    }
}

/// Mirroring twice gives the index back.
pub proof fn lemma_mirror_involution(k: nat, n: nat)
    requires
        k < n,
    ensures
        mirror(k, n) < n,
        mirror(mirror(k, n), n) == k,
{
    if k == 0 {
        vstd::arithmetic::div_mod::lemma_mod_self_0(n as int);
    } else {
        vstd::arithmetic::div_mod::lemma_small_mod((n - k) as nat, n);
        vstd::arithmetic::div_mod::lemma_small_mod(k, n);
    }
}

/// Row-major position of the texel in column `x` of row `y`.
pub open spec fn texel_position(x: nat, y: nat, n: nat) -> nat {
    y * n + x
}

/// Row-major position of the texel in column `x` of row `y`.
pub fn texel_index(x: usize, y: usize, n: usize) -> (i: usize)
    requires
        x < n,
        y < n,
        n * n <= usize::MAX,
    ensures
        i == texel_position(x as nat, y as nat, n as nat),
        i < n * n,
{
    proof {
        lemma_position_in_field(x as nat, y as nat, n as nat);
    }
    y * n + x
}

/// A texel inside the field has a position inside the field, from which its
/// column and row are read back by remainder and quotient.
pub proof fn lemma_position_in_field(x: nat, y: nat, n: nat)
    requires
        x < n,
        y < n,
    ensures
        texel_position(x, y, n) < n * n,
        y * n <= texel_position(x, y, n),
        texel_position(x, y, n) % n == x,
        texel_position(x, y, n) / n == y,
{
    assert(y * n + n <= n * n) by (nonlinear_arith)
        requires
            y < n,
    ;
    vstd::arithmetic::div_mod::lemma_fundamental_div_mod_converse(
        (y * n + x) as int,
        n as int,
        y as int,
        x as int,
    );
}

/// Every position inside the field is that of its column and row.
pub proof fn lemma_texel_of_position(i: nat, n: nat)
    requires
        i < n * n,
    ensures
        i % n < n,
        i / n < n,
        texel_position(i % n, i / n, n) == i,
{
    vstd::arithmetic::div_mod::lemma_fundamental_div_mod(i as int, n as int);
    assert(i / n < n) by (nonlinear_arith)
        requires
            i < n * n,
            i == n * (i / n) + i % n,
            0 <= i % n,
            n > 0,
    ;
    assert((i / n) * n == n * (i / n)) by (nonlinear_arith);
}

/// Position of the texel that holds the opposite wavevector: both coordinates
/// mirrored.
pub open spec fn mirror_position(i: nat, n: nat) -> nat {
    texel_position(mirror(i % n, n), mirror(i / n, n), n)
}

/// Position of the texel that holds the opposite wavevector.
pub fn mirror_texel(i: usize, n: usize) -> (m: usize)
    requires
        i < n * n,
        n * n <= usize::MAX,
    ensures
        m == mirror_position(i as nat, n as nat),
        m < n * n,
{
    proof {
        lemma_texel_of_position(i as nat, n as nat);
    }
    let x: usize = mirror_index(i % n, n);
    let y: usize = mirror_index(i / n, n);
    texel_index(x, y, n)
}

/// Mirroring a texel twice gives the texel back, and the mirrored texel lies
/// in the field.
pub proof fn lemma_mirror_position_involution(i: nat, n: nat)
    requires
        i < n * n,
    ensures
        mirror_position(i, n) < n * n,
        mirror_position(mirror_position(i, n), n) == i,
{
    lemma_texel_of_position(i, n);
    let x = i % n;
    let y = i / n;
    lemma_mirror_involution(x, n);
    lemma_mirror_involution(y, n);
    lemma_position_in_field(mirror(x, n), mirror(y, n), n);
}

/// Signed frequency index of column or row `x` of a field of edge `n`: the
/// wavevector is zero in the middle of the field, at `n / 2`.
pub open spec fn wave_number(x: nat, n: nat) -> int {
    x - n / 2
}

/// Signed frequency index of column or row `x`.
pub fn wave_index(x: u32, n: u32) -> (k: i64)
    ensures
        k == wave_number(x as nat, n as nat),
{
    x as i64 - (n / 2) as i64
}

/// The mirrored index holds the opposite frequency: for an even edge the two
/// wave numbers add up to a multiple of the edge, and to zero away from
/// index 0.
pub proof fn lemma_mirror_negates_wave_number(x: nat, n: nat)
    requires
        x < n,
        n % 2 == 0,
    ensures
        (wave_number(mirror(x, n), n) + wave_number(x, n)) % (n as int) == 0,
        x != 0 ==> wave_number(mirror(x, n), n) == -wave_number(x, n),
{
    if x == 0 {
        vstd::arithmetic::div_mod::lemma_mod_self_0(n as int);
        vstd::arithmetic::div_mod::lemma_mod_multiples_basic(-1, n as int);
    } else {
        vstd::arithmetic::div_mod::lemma_small_mod((n - x) as nat, n);
        vstd::arithmetic::div_mod::lemma_small_mod(0, n);
    }
}

/// The texel carries the zero wavevector, for which displacement and slope
/// are defined to vanish.
pub open spec fn zero_wavevector(x: nat, y: nat, n: nat) -> bool {
    wave_number(x, n) == 0 && wave_number(y, n) == 0
}

/// Whether the texel carries the zero wavevector.
pub fn is_zero_wavevector(x: u32, y: u32, n: u32) -> (zero: bool)
    ensures
        zero == zero_wavevector(x as nat, y as nat, n as nat),
        zero <==> x == n / 2 && y == n / 2,
{
    x == n / 2 && y == n / 2
}

/// The texel of the zero wavevector is its own mirror: its amplitude meets
/// its own conjugate.
pub proof fn lemma_zero_wavevector_is_its_own_mirror(x: nat, y: nat, n: nat)
    requires
        x < n,
        y < n,
        n % 2 == 0,
        zero_wavevector(x, y, n),
    ensures
        mirror_position(texel_position(x, y, n), n) == texel_position(x, y, n),
{
    lemma_position_in_field(x, y, n);
    vstd::arithmetic::div_mod::lemma_small_mod((n - x) as nat, n);
}

/// The sign `(-1)^(x + y)` is negative.
pub open spec fn checkerboard_negative(x: nat, y: nat) -> bool {
    (x + y) % 2 == 1
}

/// Whether the sign `(-1)^(x + y)`, which recentres a field transformed from
/// a spectrum with its origin in the middle, is negative at texel `(x, y)`.
pub fn is_checkerboard_negative(x: u32, y: u32) -> (negative: bool)
    ensures
        negative == checkerboard_negative(x as nat, y as nat),
{
    (x % 2) != (y % 2)
}

/// The checkerboard alternates along rows and along columns.
pub proof fn lemma_checkerboard_alternates(x: nat, y: nat)
    ensures
        checkerboard_negative(x + 1, y) == !checkerboard_negative(x, y),
        checkerboard_negative(x, y + 1) == !checkerboard_negative(x, y),
        !checkerboard_negative(0, 0),
{
}

} // verus!
