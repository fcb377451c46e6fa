//! Why the butterfly network is the inverse transform.
//!
//! The network is run here on sums of the inputs whose coefficients are powers
//! of a root of unity `w` of order `n`, with `w^(n/2) = -1`.  Such arithmetic
//! is exact, and on it the network is shown to leave at every position `p` the
//! sum over all inputs `t` of `w^(p t)` times input `t`, which is the inverse
//! discrete Fourier transform without its factor `1/n`.

use vstd::prelude::*;
use vstd::arithmetic::power2::{lemma2_to64, lemma_pow2_adds, lemma_pow2_unfold, pow2};
use vstd::arithmetic::div_mod::{
    lemma_add_mod_noop_right, lemma_fundamental_div_mod, lemma_mod_multiples_vanish,
    lemma_small_mod,
};
use crate::fft::{
    bit_reversed, butterfly_bottom, butterfly_owner, butterfly_top, butterfly_twiddle,
    lemma_butterfly_in_line, lemma_div_mod_of, lemma_owner_works_on_position,
    lemma_reversed_bits_bound, reversed_bits,
};
use crate::grid::{lemma_position_in_field, lemma_texel_of_position};
use crate::transform::{
    field_transformed, line_of, line_through, line_transformed, network_applied, pass_applied,
    stage_applied, Arithmetic, FftPass,
};

verus! {

/// A sum of inputs, each with a power of `w` as its coefficient: entry `u` is
/// the exponent of the coefficient of input `u`, or nothing where input `u`
/// does not occur in the sum.
pub type Terms = Seq<Option<nat>>;

/// Input `t` alone, with coefficient one, among `count` inputs.
pub open spec fn single_input(t: nat, count: nat) -> Terms {
    Seq::new(count, |u: int| if u == t { Some(0nat) } else { None })
}

/// The line, or the field, in which every position holds its own input.
pub open spec fn all_inputs(count: nat) -> Seq<Terms> {
    Seq::new(count, |t: int| single_input(t as nat, count))
}

/// The two sums have no input in common.
pub open spec fn disjoint(a: Terms, b: Terms) -> bool {
    forall|u: int| 0 <= u < a.len() && 0 <= u < b.len() ==> !((#[trigger] a[u]) is Some && b[u] is Some)
}

/// Coefficient of one input in `a + w^e b`, where the input occurs in at most
/// one of the two sums.
pub open spec fn term_of_sum(a: Option<nat>, b: Option<nat>, e: nat, n: nat) -> Option<nat> {
    match a {
        Some(exponent) => Some(exponent),
        None => match b {
            Some(exponent) => Some((exponent + e) % n),
            None => None,
        },
    }
}

/// The sum `a + w^e b` of two sums that have no input in common.
pub open spec fn sum_with_rotated(a: Terms, b: Terms, e: nat, n: nat) -> Terms {
    Seq::new(a.len(), |u: int| term_of_sum(a[u], b[u], e, n))
}

/// The exact butterfly of order `n`: from `a` above and `b` below, which have
/// no input in common, it leaves `a + w^k b` above and `a - w^k b`, which is
/// `a + w^(k + n/2) b`, below.
pub open spec fn exact_arithmetic(n: nat) -> Arithmetic<Terms> {
    |a: Terms, b: Terms, k: nat, x: Terms, y: Terms|
        {
            &&& a.len() == b.len()
            &&& disjoint(a, b)
            &&& x == sum_with_rotated(a, b, k, n)
            &&& y == sum_with_rotated(a, b, k + n / 2, n)
        }
}

/// How the inputs lie on a line at its start: input `u` is held by position
/// `source[u]`, with coefficient `w^base[u]`, or by no position of the line.
pub struct Placement {
    pub source: Seq<Option<nat>>,
    pub base: Seq<nat>,
}

/// The coefficient `w^base` times a coefficient of order `n`.
pub open spec fn carried(c: Option<nat>, base: nat, n: nat) -> Option<nat> {
    match c {
        Some(e) => Some((base + e) % n),
        None => None,
    }
}

impl Placement {
    /// The placement describes a line of `n` positions with coefficients of
    /// order `n`.
    pub open spec fn fits(self, n: nat) -> bool {
        &&& self.base.len() == self.source.len()
        &&& forall|u: int|
            0 <= u < self.source.len() ==> self.base[u] < n && ((#[trigger] self.source[u]) matches Some(
                t,
            ) ==> t < n)
    }

    /// What position `t` of the line holds at the start.
    pub open spec fn held_by(self, t: nat) -> Terms {
        Seq::new(
            self.source.len(),
            |u: int| if self.source[u] == Some(t) { Some(self.base[u]) } else { None },
        )
    }

    /// The line at the start.
    pub open spec fn line(self, n: nat) -> Seq<Terms> {
        Seq::new(n, |t: int| self.held_by(t as nat))
    }

    /// The line after the first `done` stages of a network of `stages`
    /// stages.
    pub open spec fn after(self, done: nat, stages: nat) -> Seq<Terms> {
        Seq::new(
            pow2(stages),
            |p: int|
                Seq::new(
                    self.source.len(),
                    |u: int|
                        match self.source[u] {
                            Some(t) => carried(
                                coefficient(done, stages, p as nat, t),
                                self.base[u],
                                pow2(stages),
                            ),
                            None => None,
                        },
                ),
        )
    }

    /// The transform of the line: position `p` holds every input of the line,
    /// the one that position `t` held at the start with `w^(p t)` times the
    /// coefficient it had.
    pub open spec fn transformed(self, n: nat) -> Seq<Terms> {
        Seq::new(
            n,
            |p: int|
                Seq::new(
                    self.source.len(),
                    |u: int|
                        match self.source[u] {
                            Some(t) => Some(((self.base[u] + p * t) % (n as int)) as nat),
                            None => None,
                        },
                ),
        )
    }
}

/// The placement of a line on its own: position `t` holds input `t`.
pub open spec fn own_inputs(n: nat) -> Placement {
    Placement { source: Seq::new(n, |u: int| Some(u as nat)), base: Seq::new(n, |u: int| 0nat) }
}

/// Coefficient of input `t` at position `p` after the first `done` stages of
/// a network of `stages` stages.  By then position `p`, at place `offset` of
/// block `block`, holds the transform of length `2^done` of every
/// `2^(stages - done)`-th input, beginning with the input at the reversal of
/// `block`.
pub open spec fn coefficient(done: nat, stages: nat, p: nat, t: nat) -> Option<nat> {
    let stride = pow2((stages - done) as nat);
    let block = p / pow2(done);
    let offset = p % pow2(done);
    if t % stride == reversed_bits(block, (stages - done) as nat) {
        Some((offset * (t / stride) * stride) % pow2(stages))
    } else {
        None
    }
}

/// The transform itself: at position `p`, input `t` with coefficient
/// `w^(p t)`.
pub open spec fn transform_terms(n: nat) -> Seq<Terms> {
    Seq::new(n, |p: int| Seq::new(n, |t: int| Some(((p * t) % (n as int)) as nat)))
}

/// One butterfly on one input: what stage `s` leaves of input `t` at both
/// elements of butterfly `j` is what the exact arithmetic makes of what the
/// stages before it left.
proof fn lemma_butterfly_step(s: nat, stages: nat, j: nat, t: nat)
    requires
        s < stages,
        j < pow2((stages - 1) as nat),
        t < pow2(stages),
    ensures
        ({
            let n = pow2(stages);
            let top = butterfly_top(s, j);
            let bottom = butterfly_bottom(s, j);
            let w = butterfly_twiddle(s, j, stages);
            let a = coefficient(s, stages, top, t);
            let b = coefficient(s, stages, bottom, t);
            &&& !(a is Some && b is Some)
            &&& coefficient(s + 1, stages, top, t) == term_of_sum(a, b, w, n)
            &&& coefficient(s + 1, stages, bottom, t) == term_of_sum(a, b, w + n / 2, n)
        }),
{
    let n = pow2(stages);
    let h = pow2(s);
    let d = pow2((stages - s) as nat);
    let d2 = pow2((stages - s - 1) as nat);
    lemma_pow2_unfold((stages - s) as nat);
    lemma_pow2_unfold(s + 1);
    lemma_pow2_adds(s, (stages - s) as nat);
    assert(n == 2 * (h * d2)) by (nonlinear_arith)
        requires
            n == h * d,
            d == 2 * d2,
    ;
    let blk = j / h;
    let off = j % h;
    let top = butterfly_top(s, j);
    let bottom = butterfly_bottom(s, j);
    let w = butterfly_twiddle(s, j, stages);
    // where the two elements lie before and after the stage
    assert(blk * (2 * h) == (2 * blk) * h) by (nonlinear_arith);
    assert(blk * (2 * h) + h == (2 * blk + 1) * h) by (nonlinear_arith);
    lemma_div_mod_of(top as int, h as int, (2 * blk) as int, off as int);
    lemma_div_mod_of(bottom as int, h as int, (2 * blk + 1) as int, off as int);
    lemma_div_mod_of(top as int, (2 * h) as int, blk as int, off as int);
    lemma_div_mod_of(bottom as int, (2 * h) as int, blk as int, (off + h) as int);
    // which inputs they hold
    let r = reversed_bits(blk, (stages - s - 1) as nat);
    lemma_reversed_bits_bound(blk, (stages - s - 1) as nat);
    lemma_div_mod_of((2 * blk) as int, 2, blk as int, 0);
    lemma_div_mod_of((2 * blk + 1) as int, 2, blk as int, 1);
    assert(reversed_bits(2 * blk, (stages - s) as nat) == r);
    // the input
    let tq = t / d;
    let tr = t % d;
    lemma_fundamental_div_mod(t as int, d as int);
    let x = off * tq * d;
    if tr < d2 {
        assert(t == (2 * tq) * d2 + tr) by (nonlinear_arith)
            requires
                t == d * tq + tr,
                d == 2 * d2,
        ;
        lemma_div_mod_of(t as int, d2 as int, (2 * tq) as int, tr as int);
    } else {
        assert(t == (2 * tq + 1) * d2 + (tr - d2)) by (nonlinear_arith)
            requires
                t == d * tq + tr,
                d == 2 * d2,
        ;
        lemma_div_mod_of(t as int, d2 as int, (2 * tq + 1) as int, (tr - d2) as int);
    }
    if tr == r {
        assert(off * (2 * tq) * d2 == x) by (nonlinear_arith)
            requires
                x == off * tq * d,
                d == 2 * d2,
        ;
        assert((off + h) * (2 * tq) * d2 == n * tq + x) by (nonlinear_arith)
            requires
                x == off * tq * d,
                d == 2 * d2,
                n == h * d,
        ;
        lemma_mod_multiples_vanish(tq as int, x as int, n as int);
    } else if tr == d2 + r {
        assert(off * (2 * tq + 1) * d2 == w + x) by (nonlinear_arith)
            requires
                x == off * tq * d,
                d == 2 * d2,
                w == off * d2,
        ;
        lemma_add_mod_noop_right(w as int, x as int, n as int);
        assert((off + h) * (2 * tq + 1) * d2 == n * tq + ((w + n / 2) + x)) by (nonlinear_arith)
            requires
                x == off * tq * d,
                d == 2 * d2,
                w == off * d2,
                n == h * d,
                n / 2 == h * d2,
        ;
        lemma_mod_multiples_vanish(tq as int, ((w + n / 2) + x) as int, n as int);
        lemma_add_mod_noop_right((w + n / 2) as int, x as int, n as int);
    }
}

/// Carrying a coefficient along commutes with the sum of a butterfly.
proof fn lemma_carried_sum(a: Option<nat>, b: Option<nat>, e: nat, base: nat, n: nat)
    requires
        n > 0,
    ensures
        carried(term_of_sum(a, b, e, n), base, n) == term_of_sum(
            carried(a, base, n),
            carried(b, base, n),
            e,
            n,
        ),
{
    if a is None && b is Some {
        let c = b->Some_0;
        lemma_add_mod_noop_right(base as int, (c + e) as int, n as int);
        lemma_add_mod_noop_right(e as int, (base + c) as int, n as int);
    }
}

/// The exact arithmetic leads from the line after `s` stages to the line
/// after `s + 1` stages, and to no other line.
proof fn lemma_stage_is_exact(place: Placement, s: nat, stages: nat, after: Seq<Terms>)
    requires
        s < stages,
        place.fits(pow2(stages)),
    ensures
        stage_applied(
            exact_arithmetic(pow2(stages)),
            s,
            stages,
            place.after(s, stages),
            place.after(s + 1, stages),
        ),
        stage_applied(exact_arithmetic(pow2(stages)), s, stages, place.after(s, stages), after)
            ==> after == place.after(s + 1, stages),
{
    let n = pow2(stages);
    let m = place.source.len();
    let before = place.after(s, stages);
    let next = place.after(s + 1, stages);
    let exact = exact_arithmetic(n);
    assert forall|j: nat|
        #![trigger butterfly_top(s, j)]
        j < pow2((stages - 1) as nat) implies {
        let a = before[butterfly_top(s, j) as int];
        let b = before[butterfly_bottom(s, j) as int];
        let w = butterfly_twiddle(s, j, stages);
        &&& a.len() == b.len()
        &&& disjoint(a, b)
        &&& next[butterfly_top(s, j) as int] == sum_with_rotated(a, b, w, n)
        &&& next[butterfly_bottom(s, j) as int] == sum_with_rotated(a, b, w + n / 2, n)
    } by {
        lemma_butterfly_in_line(s, j, stages);
        let top = butterfly_top(s, j);
        let bottom = butterfly_bottom(s, j);
        let a = before[top as int];
        let b = before[bottom as int];
        let w = butterfly_twiddle(s, j, stages);
        assert forall|u: int| 0 <= u < m implies !((#[trigger] a[u]) is Some && b[u] is Some)
            && next[top as int][u] == term_of_sum(a[u], b[u], w, n) && next[bottom as int][u]
            == term_of_sum(a[u], b[u], w + n / 2, n) by {
            match place.source[u] {
                Some(t) => {
                    lemma_butterfly_step(s, stages, j, t);
                    let ca = coefficient(s, stages, top, t);
                    let cb = coefficient(s, stages, bottom, t);
                    lemma_carried_sum(ca, cb, w, place.base[u], n);
                    lemma_carried_sum(ca, cb, w + n / 2, place.base[u], n);
                },
                None => {},
            }
        }
    }
    if stage_applied(exact, s, stages, before, after) {
        assert forall|p: int| 0 <= p < n implies after[p] == next[p] by {
            let j = butterfly_owner(s, p as nat);
            lemma_owner_works_on_position(s, p as nat, stages);
            let top = butterfly_top(s, j);
            assert(exact(
                before[top as int],
                before[butterfly_bottom(s, j) as int],
                butterfly_twiddle(s, j, stages),
                after[top as int],
                after[butterfly_bottom(s, j) as int],
            ));
        }
    }
}

/// Before the first stage every position holds what the position at its
/// reversal held at the start.
proof fn lemma_loaded_line(place: Placement, stages: nat)
    requires
        place.fits(pow2(stages)),
    ensures
        place.after(0, stages) == bit_reversed(place.line(pow2(stages)), stages),
{
    let n = pow2(stages);
    let m = place.source.len();
    let loaded = bit_reversed(place.line(n), stages);
    lemma2_to64();
    assert forall|p: int| 0 <= p < n implies place.after(0, stages)[p] == loaded[p] by {
        let r = reversed_bits(p as nat, stages);
        lemma_reversed_bits_bound(p as nat, stages);
        assert forall|u: int| 0 <= u < m implies place.after(0, stages)[p][u] == place.held_by(
            r,
        )[u] by {
            match place.source[u] {
                Some(t) => {
                    lemma_small_mod(t, n);
                    assert(0 * (t / n) * n == 0) by (nonlinear_arith);
                    lemma_small_mod(place.base[u], n);
                },
                None => {},
            }
        }
    }
}

/// After the last stage every position holds the transform.
proof fn lemma_finished_line(place: Placement, stages: nat)
    requires
        place.fits(pow2(stages)),
    ensures
        place.after(stages, stages) == place.transformed(pow2(stages)),
{
    let n = pow2(stages);
    let m = place.source.len();
    lemma2_to64();
    assert forall|p: int| 0 <= p < n implies place.after(stages, stages)[p] == place.transformed(
        n,
    )[p] by {
        assert forall|u: int| 0 <= u < m implies place.after(stages, stages)[p][u]
            == place.transformed(n)[p][u] by {
            match place.source[u] {
                Some(t) => {
                    lemma_div_mod_of(p, n as int, 0, p);
                    lemma_add_mod_noop_right(place.base[u] as int, p * t, n as int);
                },
                None => {},
            }
        }
    }
}

/// The states of any exact run are the lines after each number of stages.
proof fn lemma_exact_states(place: Placement, stages: nat, states: Seq<Seq<Terms>>, upto: nat)
    requires
        place.fits(pow2(stages)),
        network_applied(exact_arithmetic(pow2(stages)), stages, place.line(pow2(stages)), states),
        upto <= stages,
    ensures
        states[upto as int] == place.after(upto, stages),
    decreases upto,
{
    if upto == 0 {
        lemma_loaded_line(place, stages);
    } else {
        lemma_exact_states(place, stages, states, (upto - 1) as nat);
        lemma_stage_is_exact(place, (upto - 1) as nat, stages, states[upto as int]);
    }
}

/// With exact arithmetic the network transforms any line of sums that have
/// no input in common, and does nothing else: it has a run on the line, and
/// every run ends in the transform of the line.
pub proof fn lemma_network_transforms_any_line(place: Placement, stages: nat, output: Seq<Terms>)
    requires
        place.fits(pow2(stages)),
    ensures
        line_transformed(exact_arithmetic(pow2(stages)), stages, place.line(pow2(stages)), output)
            <==> output == place.transformed(pow2(stages)),
{
    let n = pow2(stages);
    let exact = exact_arithmetic(n);
    lemma_finished_line(place, stages);
    let run = Seq::new(stages + 1, |s: int| place.after(s as nat, stages));
    assert(network_applied(exact, stages, place.line(n), run)) by {
        lemma_loaded_line(place, stages);
        assert forall|s: int| 0 <= s < stages implies stage_applied(
            exact,
            s as nat,
            stages,
            #[trigger] run[s],
            run[s + 1],
        ) by {
            lemma_stage_is_exact(place, s as nat, stages, run[s + 1]);
        }
    }
    if line_transformed(exact, stages, place.line(n), output) {
        let states = choose|states: Seq<Seq<Terms>>|
            network_applied(exact, stages, place.line(n), states) && #[trigger] states[stages as int]
                == output;
        lemma_exact_states(place, stages, states, stages);
    }
}

/// With exact arithmetic the network computes the inverse transform, and
/// nothing else: run on the inputs themselves, it leaves at each position `p`
/// the sum over all inputs `t` of `w^(p t)` times input `t`.
pub proof fn lemma_network_computes_the_transform(stages: nat, output: Seq<Terms>)
    ensures
        line_transformed(exact_arithmetic(pow2(stages)), stages, all_inputs(pow2(stages)), output)
            <==> output == transform_terms(pow2(stages)),
{
    let n = pow2(stages);
    let place = own_inputs(n);
    assert(place.line(n) =~= all_inputs(n)) by {
        assert forall|t: int| 0 <= t < n implies place.line(n)[t] == all_inputs(n)[t] by {}
    }
    assert(place.transformed(n) =~= transform_terms(n)) by {
        assert forall|p: int| 0 <= p < n implies place.transformed(n)[p] == transform_terms(n)[p] by {}
    }
    lemma_network_transforms_any_line(place, stages, output);
}

/// Row `l` of a field of edge `n` in which every texel holds its own input.
pub open spec fn row_placement(l: nat, n: nat) -> Placement {
    Placement {
        source: Seq::new(
            n * n,
            |u: int| if u / (n as int) == l { Some((u % (n as int)) as nat) } else { None },
        ),
        base: Seq::new(n * n, |u: int| 0nat),
    }
}

/// The field after the horizontal pass: every texel holds the inputs of its
/// row, the input of column `t` with coefficient `w^(x t)`, where `x` is the
/// column of the texel.
pub open spec fn rows_transformed(n: nat) -> Seq<Terms> {
    Seq::new(
        n * n,
        |i: int|
            Seq::new(
                n * n,
                |u: int|
                    if u / (n as int) == i / (n as int) {
                        Some((((i % (n as int)) * (u % (n as int))) % (n as int)) as nat)
                    } else {
                        None
                    },
            ),
    )
}

/// Column `c` of the field after the horizontal pass.
pub open spec fn column_placement(c: nat, n: nat) -> Placement {
    Placement {
        source: Seq::new(n * n, |u: int| Some((u / (n as int)) as nat)),
        base: Seq::new(n * n, |u: int| ((c * (u % (n as int))) % (n as int)) as nat),
    }
}

/// The transform of a field: the texel in column `x` of row `y` holds every
/// input, the one of column `tx` and row `ty` with coefficient
/// `w^(x tx + y ty)`.
pub open spec fn field_transform_terms(n: nat) -> Seq<Terms> {
    Seq::new(
        n * n,
        |i: int|
            Seq::new(
                n * n,
                |u: int|
                    Some(
                        (((i % (n as int)) * (u % (n as int)) + (i / (n as int)) * (u / (n as int)))
                            % (n as int)) as nat,
                    ),
            ),
    )
}

/// A pass with exact arithmetic leads from a field whose lines are sums with
/// no input in common to the field of their transforms, and nowhere else.
proof fn lemma_pass_is_exact(
    pass: FftPass,
    stages: nat,
    before: Seq<Terms>,
    expected: Seq<Terms>,
    places: spec_fn(nat) -> Placement,
    after: Seq<Terms>,
)
    requires
        before.len() == pow2(stages) * pow2(stages),
        expected.len() == pow2(stages) * pow2(stages),
        forall|l: nat|
            l < pow2(stages) ==> (#[trigger] places(l)).fits(pow2(stages)) && line_of(
                before,
                pass,
                l,
                pow2(stages),
            ) == places(l).line(pow2(stages)) && line_of(expected, pass, l, pow2(stages)) == places(
                l,
            ).transformed(pow2(stages)),
    ensures
        pass_applied(exact_arithmetic(pow2(stages)), pass, stages, before, after) <==> after
            == expected,
{
    let n = pow2(stages);
    let exact = exact_arithmetic(n);
    assert(pass_applied(exact, pass, stages, before, expected)) by {
        assert forall|l: nat| l < n implies line_transformed(
            exact,
            stages,
            #[trigger] line_of(before, pass, l, n),
            line_of(expected, pass, l, n),
        ) by {
            let place = places(l);
            lemma_network_transforms_any_line(place, stages, line_of(expected, pass, l, n));
        }
    }
    if pass_applied(exact, pass, stages, before, after) {
        assert forall|p: int| 0 <= p < n * n implies after[p] == expected[p] by {
            lemma_texel_of_position(p as nat, n);
            let l = line_through(pass, p as nat, n);
            let i: nat = match pass {
                FftPass::Horizontal => (p % (n as int)) as nat,
                FftPass::Vertical => (p / (n as int)) as nat,
            };
            let place = places(l);
            lemma_network_transforms_any_line(place, stages, line_of(after, pass, l, n));
            assert(line_of(after, pass, l, n)[i as int] == after[p]);
        }
        assert(after =~= expected);
    }
}

/// Column and row of the texel at position `l n + t`.
proof fn lemma_row_and_column(l: nat, t: nat, n: nat)
    requires
        l < n,
        t < n,
    ensures
        (l * n + t) / n == l,
        (l * n + t) % n == t,
        l * n + t < n * n,
{
    lemma_position_in_field(t, l, n);
}

/// The horizontal pass with exact arithmetic leads from the field of inputs
/// to the field of transformed rows, and nowhere else.
proof fn lemma_horizontal_pass_is_exact(stages: nat, after: Seq<Terms>)
    ensures
        pass_applied(
            exact_arithmetic(pow2(stages)),
            FftPass::Horizontal,
            stages,
            all_inputs(pow2(stages) * pow2(stages)),
            after,
        ) <==> after == rows_transformed(pow2(stages)),
{
    let n = pow2(stages);
    let before = all_inputs(n * n);
    let expected = rows_transformed(n);
    let places = |l: nat| row_placement(l, n);
    assert forall|l: nat| l < n implies (#[trigger] places(l)).fits(n) && line_of(
        before,
        FftPass::Horizontal,
        l,
        n,
    ) == places(l).line(n) && line_of(expected, FftPass::Horizontal, l, n) == places(l).transformed(
        n,
    ) by {
        let place = row_placement(l, n);
        assert forall|t: int| 0 <= t < n implies line_of(before, FftPass::Horizontal, l, n)[t]
            == place.line(n)[t] && line_of(expected, FftPass::Horizontal, l, n)[t]
            == place.transformed(n)[t] by {
            lemma_row_and_column(l, t as nat, n);
            let i = l * n + t;
            assert forall|u: int| 0 <= u < n * n implies before[i][u] == place.held_by(t as nat)[u]
                && expected[i][u] == place.transformed(n)[t][u] by {
                lemma_texel_of_position(u as nat, n);
            }
        }
    }
    lemma_pass_is_exact(FftPass::Horizontal, stages, before, expected, places, after);
}

/// The vertical pass with exact arithmetic leads from the field of
/// transformed rows to the transform of the field, and nowhere else.
proof fn lemma_vertical_pass_is_exact(stages: nat, after: Seq<Terms>)
    ensures
        pass_applied(
            exact_arithmetic(pow2(stages)),
            FftPass::Vertical,
            stages,
            rows_transformed(pow2(stages)),
            after,
        ) <==> after == field_transform_terms(pow2(stages)),
{
    let n = pow2(stages);
    let before = rows_transformed(n);
    let expected = field_transform_terms(n);
    let places = |c: nat| column_placement(c, n);
    assert forall|c: nat| c < n implies (#[trigger] places(c)).fits(n) && line_of(
        before,
        FftPass::Vertical,
        c,
        n,
    ) == places(c).line(n) && line_of(expected, FftPass::Vertical, c, n) == places(c).transformed(
        n,
    ) by {
        let place = column_placement(c, n);
        assert(place.fits(n)) by {
            assert forall|u: int| 0 <= u < n * n implies place.base[u] < n && ((
            #[trigger] place.source[u]) matches Some(t) ==> t < n) by {
                lemma_texel_of_position(u as nat, n);
            }
        }
        assert forall|t: int| 0 <= t < n implies line_of(before, FftPass::Vertical, c, n)[t]
            == place.line(n)[t] && line_of(expected, FftPass::Vertical, c, n)[t]
            == place.transformed(n)[t] by {
            lemma_row_and_column(t as nat, c, n);
            let i = t * n + c;
            assert forall|u: int| 0 <= u < n * n implies before[i][u] == place.held_by(t as nat)[u]
                && expected[i][u] == place.transformed(n)[t][u] by {
                let ux = u % (n as int);
                let uy = u / (n as int);
                lemma_add_mod_noop_right(t * uy, c * ux, n as int);
            }
        }
    }
    lemma_pass_is_exact(FftPass::Vertical, stages, before, expected, places, after);
}

/// With exact arithmetic the two passes compute the inverse transform of a
/// field, and nothing else: run on the inputs themselves, they leave at the
/// texel in column `x` of row `y` the sum over all inputs of
/// `w^(x tx + y ty)` times the input of column `tx` and row `ty`.
pub proof fn lemma_passes_compute_the_field_transform(stages: nat, output: Seq<Terms>)
    ensures
        field_transformed(
            exact_arithmetic(pow2(stages)),
            stages,
            all_inputs(pow2(stages) * pow2(stages)),
            output,
        ) <==> output == field_transform_terms(pow2(stages)),
{
    let n = pow2(stages);
    let exact = exact_arithmetic(n);
    let inputs = all_inputs(n * n);
    lemma_horizontal_pass_is_exact(stages, rows_transformed(n));
    lemma_vertical_pass_is_exact(stages, field_transform_terms(n));
    if field_transformed(exact, stages, inputs, output) {
        let between = choose|between: Seq<Terms>|
            pass_applied(exact, FftPass::Horizontal, stages, inputs, between)
                && #[trigger] pass_applied(exact, FftPass::Vertical, stages, between, output);
        lemma_horizontal_pass_is_exact(stages, between);
        lemma_vertical_pass_is_exact(stages, output);
    }
}

} // verus!
