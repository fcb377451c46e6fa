//! The inverse transform as a butterfly network that runs over any kind of
//! element: the network decides which elements meet, in which order, and hands
//! each pair with its twiddle index to the caller's arithmetic.
//!
//! A field is transformed in two passes: every row first, then every column of
//! what the first pass left.

use vstd::prelude::*;
use vstd::arithmetic::power2::{lemma_pow2_unfold, pow2};
use crate::fft::{
    bit_reverse_permute, bit_reversed, butterfly, butterfly_bottom, butterfly_owner, butterfly_top,
    butterfly_twiddle, lemma_butterfly_in_line, lemma_butterfly_owns_its_elements,
    lemma_owner_works_on_position, lemma_reversed_bits_bound, power_of_two, Butterfly,
};
use crate::grid::{lemma_position_in_field, lemma_texel_of_position, texel_index, texel_position};

verus! {

/// The arithmetic of a butterfly as a relation: `arithmetic(a, b, w, x, y)`
/// says that the elements `a` above and `b` below, met with twiddle index `w`,
/// may leave `x` above and `y` below.
pub type Arithmetic<T> = spec_fn(T, T, nat, T, T) -> bool;

/// The arithmetic that a caller's function performs: all that its contract
/// allows it to return.
pub open spec fn arithmetic_of<T, F: Fn(T, T, u32) -> (T, T)>(combine: &F) -> Arithmetic<T> {
    |a: T, b: T, w: nat, x: T, y: T| call_ensures(*combine, (a, b, w as u32), (x, y))
}

/// Stage `stage` leads from `before` to `after`: the two elements of every
/// butterfly in `after` are what the arithmetic makes of its elements in
/// `before` and its twiddle index.
pub open spec fn stage_applied<T>(
    arithmetic: Arithmetic<T>,
    stage: nat,
    stages: nat,
    before: Seq<T>,
    after: Seq<T>,
) -> bool {
    &&& before.len() == pow2(stages)
    &&& after.len() == pow2(stages)
    &&& forall|j: nat|
        #![trigger butterfly_top(stage, j)]
        j < pow2((stages - 1) as nat) ==> arithmetic(
            before[butterfly_top(stage, j) as int],
            before[butterfly_bottom(stage, j) as int],
            butterfly_twiddle(stage, j, stages),
            after[butterfly_top(stage, j) as int],
            after[butterfly_bottom(stage, j) as int],
        )
}

/// `states` are the contents of a line on its way through the network: first
/// the input in bit-reversed order, then what each stage made of the state
/// before it.
pub open spec fn network_applied<T>(
    arithmetic: Arithmetic<T>,
    stages: nat,
    input: Seq<T>,
    states: Seq<Seq<T>>,
) -> bool {
    &&& states.len() == stages + 1
    &&& states[0] == bit_reversed(input, stages)
    &&& forall|s: int|
        0 <= s < stages ==> stage_applied(
            arithmetic,
            s as nat,
            stages,
            #[trigger] states[s],
            states[s + 1],
        )
}

/// `output` is what the network of `stages` stages makes of `input`.
pub open spec fn line_transformed<T>(
    arithmetic: Arithmetic<T>,
    stages: nat,
    input: Seq<T>,
    output: Seq<T>,
) -> bool {
    exists|states: Seq<Seq<T>>|
        network_applied(arithmetic, stages, input, states) && #[trigger] states[stages as int]
            == output
}

/// Runs one stage over a line in place: each of its `2^(stages - 1)`
/// butterflies is handed to `combine` once.
pub fn apply_stage<T: Copy, F: Fn(T, T, u32) -> (T, T)>(
    line: &mut Vec<T>,
    stage: u32,
    stages: u32,
    combine: &F,
)
    requires
        stage < stages < 32,
        old(line).len() == pow2(stages as nat),
        forall|a: T, b: T, w: u32|
            2 * w < pow2(stages as nat) ==> call_requires(*combine, (a, b, w)),
    ensures
        stage_applied(arithmetic_of(combine), stage as nat, stages as nat, old(line)@, final(line)@),
{
    let count: u32 = power_of_two(stages - 1);
    let mut j: u32 = 0;
    while j < count
        invariant
            j <= count,
            count == pow2((stages - 1) as nat),
            stage < stages < 32,
            line.len() == pow2(stages as nat),
            old(line).len() == pow2(stages as nat),
            forall|a: T, b: T, w: u32|
            2 * w < pow2(stages as nat) ==> call_requires(*combine, (a, b, w)),
            forall|k: nat|
                #![trigger butterfly_top(stage as nat, k)]
                k < j ==> call_ensures(
                    *combine,
                    (
                        old(line)@[butterfly_top(stage as nat, k) as int],
                        old(line)@[butterfly_bottom(stage as nat, k) as int],
                        butterfly_twiddle(stage as nat, k, stages as nat) as u32,
                    ),
                    (
                        line@[butterfly_top(stage as nat, k) as int],
                        line@[butterfly_bottom(stage as nat, k) as int],
                    ),
                ),
            forall|p: int|
                0 <= p < line.len() && #[trigger] butterfly_owner(stage as nat, p as nat) >= j
                    ==> line@[p] == old(line)@[p],
        decreases count - j,
    {
        let b: Butterfly = butterfly(stage, j, stages);
        proof {
            lemma_butterfly_owns_its_elements(stage as nat, j as nat, stages as nat);
            lemma_pow2_unfold(stages as nat);
        }
        let x: T = line[b.top as usize];
        let y: T = line[b.bottom as usize];
        let (new_top, new_bottom) = combine(x, y, b.twiddle);
        line.set(b.top as usize, new_top);
        line.set(b.bottom as usize, new_bottom);
        proof {
            assert forall|k: nat|
                #![trigger butterfly_top(stage as nat, k)]
                k < j + 1 implies call_ensures(
                *combine,
                (
                    old(line)@[butterfly_top(stage as nat, k) as int],
                    old(line)@[butterfly_bottom(stage as nat, k) as int],
                    butterfly_twiddle(stage as nat, k, stages as nat) as u32,
                ),
                (
                    line@[butterfly_top(stage as nat, k) as int],
                    line@[butterfly_bottom(stage as nat, k) as int],
                ),
            ) by {
                lemma_butterfly_owns_its_elements(stage as nat, k, stages as nat);
                lemma_butterfly_in_line(stage as nat, k, stages as nat);
            }
        }
        j = j + 1;
    }
}

/// Transforms a line of `2^stages` elements in place: loads it in
/// bit-reversed order and runs the stages over it, the first to the last.
pub fn transform_line<T: Copy, F: Fn(T, T, u32) -> (T, T)>(
    line: &mut Vec<T>,
    stages: u32,
    combine: &F,
)
    requires
        stages < 32,
        old(line).len() == pow2(stages as nat),
        forall|a: T, b: T, w: u32|
            2 * w < pow2(stages as nat) ==> call_requires(*combine, (a, b, w)),
    ensures
        line_transformed(arithmetic_of(combine), stages as nat, old(line)@, final(line)@),
{
    let loaded: Vec<T> = bit_reverse_permute(line, stages);
    *line = loaded;
    let ghost mut states: Seq<Seq<T>> = seq![line@];
    let mut stage: u32 = 0;
    while stage < stages
        invariant
            stage <= stages < 32,
            line.len() == pow2(stages as nat),
            forall|a: T, b: T, w: u32|
            2 * w < pow2(stages as nat) ==> call_requires(*combine, (a, b, w)),
            states.len() == stage + 1,
            states[0] == bit_reversed(old(line)@, stages as nat),
            states[stage as int] == line@,
            forall|s: int|
                0 <= s < stage ==> stage_applied(
                    arithmetic_of(combine),
                    s as nat,
                    stages as nat,
                    #[trigger] states[s],
                    states[s + 1],
                ),
        decreases stages - stage,
    {
        apply_stage(line, stage, stages, combine);
        proof {
            states = states.push(line@);
        }
        stage = stage + 1;
    }
}

/// The direction of one pass over a field.
#[derive(Clone, Copy, Debug, PartialEq, Eq, Structural)]
pub enum FftPass {
    /// Every row is a line.
    Horizontal,
    /// Every column is a line.
    Vertical,
}

/// Position in the field of element `i` of line `l`.
pub open spec fn line_position(pass: FftPass, l: nat, i: nat, n: nat) -> nat {
    match pass {
        FftPass::Horizontal => texel_position(i, l, n),
        FftPass::Vertical => texel_position(l, i, n),
    }
}

/// The line that passes through position `p`.
pub open spec fn line_through(pass: FftPass, p: nat, n: nat) -> nat {
    match pass {
        FftPass::Horizontal => p / n,
        FftPass::Vertical => p % n,
    }
}

/// Line `l` of a field of edge `n`.
pub open spec fn line_of<T>(field: Seq<T>, pass: FftPass, l: nat, n: nat) -> Seq<T> {
    Seq::new(n, |i: int| field[line_position(pass, l, i as nat, n) as int])
}

/// The pass leads from `before` to `after`: every line of `after` is what the
/// network makes of the same line of `before`.
pub open spec fn pass_applied<T>(
    arithmetic: Arithmetic<T>,
    pass: FftPass,
    stages: nat,
    before: Seq<T>,
    after: Seq<T>,
) -> bool {
    &&& before.len() == pow2(stages) * pow2(stages)
    &&& after.len() == pow2(stages) * pow2(stages)
    &&& forall|l: nat|
        l < pow2(stages) ==> line_transformed(
            arithmetic,
            stages,
            #[trigger] line_of(before, pass, l, pow2(stages)),
            line_of(after, pass, l, pow2(stages)),
        )
}

/// `after` is the two-dimensional transform of `before`: the horizontal pass
/// over `before`, then the vertical pass over all that the horizontal pass
/// left.
pub open spec fn field_transformed<T>(
    arithmetic: Arithmetic<T>,
    stages: nat,
    before: Seq<T>,
    after: Seq<T>,
) -> bool {
    exists|between: Seq<T>|
        pass_applied(arithmetic, FftPass::Horizontal, stages, before, between) && #[trigger] pass_applied(
            arithmetic,
            FftPass::Vertical,
            stages,
            between,
            after,
        )
}

/// Every position of a line lies in the field, and the line through it is
/// that line: lines of one pass share no element.
pub proof fn lemma_line_position(pass: FftPass, l: nat, i: nat, n: nat)
    requires
        l < n,
        i < n,
    ensures
        line_position(pass, l, i, n) < n * n,
        line_through(pass, line_position(pass, l, i, n), n) == l,
{
    lemma_position_in_field(i, l, n);
    lemma_position_in_field(l, i, n);
}

/// Position in the field of element `i` of line `l`.
pub fn line_element(pass: FftPass, l: usize, i: usize, n: usize) -> (p: usize)
    requires
        l < n,
        i < n,
        n * n <= usize::MAX,
    ensures
        p == line_position(pass, l as nat, i as nat, n as nat),
        p < n * n,
{
    match pass {
        FftPass::Horizontal => texel_index(i, l, n),
        FftPass::Vertical => texel_index(l, i, n),
    }
}

/// Runs one pass over a field of edge `2^stages` in place: each line is
/// copied out, transformed on its own and written back.
pub fn fft_pass<T: Copy, F: Fn(T, T, u32) -> (T, T)>(
    field: &mut Vec<T>,
    stages: u32,
    pass: FftPass,
    combine: &F,
)
    requires
        stages < 32,
        old(field).len() == pow2(stages as nat) * pow2(stages as nat),
        forall|a: T, b: T, w: u32|
            2 * w < pow2(stages as nat) ==> call_requires(*combine, (a, b, w)),
    ensures
        pass_applied(arithmetic_of(combine), pass, stages as nat, old(field)@, final(field)@),
{
    let n: usize = power_of_two(stages) as usize;
    let mut l: usize = 0;
    while l < n
        invariant
            l <= n,
            n == pow2(stages as nat),
            stages < 32,
            field.len() == n * n,
            old(field).len() == n * n,
            forall|a: T, b: T, w: u32|
            2 * w < pow2(stages as nat) ==> call_requires(*combine, (a, b, w)),
            forall|k: nat|
                k < l ==> line_transformed(
                    arithmetic_of(combine),
                    stages as nat,
                    #[trigger] line_of(old(field)@, pass, k, n as nat),
                    line_of(field@, pass, k, n as nat),
                ),
            forall|p: int|
                0 <= p < n * n && #[trigger] line_through(pass, p as nat, n as nat) >= l ==> field@[p]
                    == old(field)@[p],
        decreases n - l,
    {
        let ghost before = field@;
        let mut line: Vec<T> = Vec::with_capacity(n);
        let mut i: usize = 0;
        while i < n
            invariant
                i <= n,
                l < n,
                field.len() == n * n,
                field@ == before,
                line.len() == i,
                forall|k: int|
                    #![trigger line_position(pass, l as nat, k as nat, n as nat)]
                    0 <= k < i ==> line@[k] == before[line_position(pass, l as nat, k as nat, n as nat) as int],
            decreases n - i,
        {
            let p: usize = line_element(pass, l, i, n);
            line.push(field[p]);
            i = i + 1;
        }
        proof {
            assert forall|k: int|
                #![trigger line_position(pass, l as nat, k as nat, n as nat)]
                0 <= k < n implies before[line_position(pass, l as nat, k as nat, n as nat) as int]
                == old(field)@[line_position(pass, l as nat, k as nat, n as nat) as int] by {
                lemma_line_position(pass, l as nat, k as nat, n as nat);
            }
            assert(line@ =~= line_of(old(field)@, pass, l as nat, n as nat));
        }
        transform_line(&mut line, stages, combine);
        let mut i: usize = 0;
        while i < n
            invariant
                i <= n,
                l < n,
                field.len() == n * n,
                before.len() == n * n,
                line.len() == n,
                forall|k: int|
                    #![trigger line_position(pass, l as nat, k as nat, n as nat)]
                    0 <= k < i ==> field@[line_position(pass, l as nat, k as nat, n as nat) as int]
                        == line@[k],
                forall|p: int|
                    0 <= p < n * n && #[trigger] line_through(pass, p as nat, n as nat) != l
                        ==> field@[p] == before[p],
            decreases n - i,
        {
            let p: usize = line_element(pass, l, i, n);
            let value: T = line[i];
            field.set(p, value);
            proof {
                assert forall|k: int|
                    #![trigger line_position(pass, l as nat, k as nat, n as nat)]
                    0 <= k < i + 1 implies field@[line_position(pass, l as nat, k as nat, n as nat) as int]
                    == line@[k] by {
                    lemma_position_in_field(l as nat, k as nat, n as nat);
                    lemma_position_in_field(l as nat, i as nat, n as nat);
                }
                lemma_line_position(pass, l as nat, i as nat, n as nat);
            }
            i = i + 1;
        }
        proof {
            assert(line@ =~= line_of(field@, pass, l as nat, n as nat));
            assert forall|k: nat| k < l + 1 implies line_transformed(
                arithmetic_of(combine),
                stages as nat,
                #[trigger] line_of(old(field)@, pass, k, n as nat),
                line_of(field@, pass, k, n as nat),
            ) by {
                if k < l {
                    assert forall|e: int|
                        #![trigger line_position(pass, k, e as nat, n as nat)]
                        0 <= e < n implies field@[line_position(pass, k, e as nat, n as nat) as int]
                        == before[line_position(pass, k, e as nat, n as nat) as int] by {
                        lemma_line_position(pass, k, e as nat, n as nat);
                    }
                    assert(line_of(field@, pass, k, n as nat) =~= line_of(before, pass, k, n as nat));
                }
            }
        }
        l = l + 1;
    }
}

/// The horizontal pass: transforms every row of the field.
pub fn horizontal_fft<T: Copy, F: Fn(T, T, u32) -> (T, T)>(
    field: &mut Vec<T>,
    stages: u32,
    combine: &F,
)
    requires
        stages < 32,
        old(field).len() == pow2(stages as nat) * pow2(stages as nat),
        forall|a: T, b: T, w: u32|
            2 * w < pow2(stages as nat) ==> call_requires(*combine, (a, b, w)),
    ensures
        pass_applied(
            arithmetic_of(combine),
            FftPass::Horizontal,
            stages as nat,
            old(field)@,
            final(field)@,
        ),
{
    fft_pass(field, stages, FftPass::Horizontal, combine);
}

/// The vertical pass: transforms every column of the field.
pub fn vertical_fft<T: Copy, F: Fn(T, T, u32) -> (T, T)>(
    field: &mut Vec<T>,
    stages: u32,
    combine: &F,
)
    requires
        stages < 32,
        old(field).len() == pow2(stages as nat) * pow2(stages as nat),
        forall|a: T, b: T, w: u32|
            2 * w < pow2(stages as nat) ==> call_requires(*combine, (a, b, w)),
    ensures
        pass_applied(
            arithmetic_of(combine),
            FftPass::Vertical,
            stages as nat,
            old(field)@,
            final(field)@,
        ),
{
    fft_pass(field, stages, FftPass::Vertical, combine);
}

/// Transforms a field of edge `2^stages` in place: the horizontal pass, and
/// when it is complete the vertical pass.
pub fn transform_field<T: Copy, F: Fn(T, T, u32) -> (T, T)>(
    field: &mut Vec<T>,
    stages: u32,
    combine: &F,
)
    requires
        stages < 32,
        old(field).len() == pow2(stages as nat) * pow2(stages as nat),
        forall|a: T, b: T, w: u32|
            2 * w < pow2(stages as nat) ==> call_requires(*combine, (a, b, w)),
    ensures
        field_transformed(arithmetic_of(combine), stages as nat, old(field)@, final(field)@),
{
    horizontal_fft(field, stages, combine);
    vertical_fft(field, stages, combine);
}

/// The arithmetic never destroys the property: when both elements that meet
/// have it, both elements that leave have it.
pub open spec fn preserved_by<T>(property: spec_fn(T) -> bool, arithmetic: Arithmetic<T>) -> bool {
    forall|a: T, b: T, w: nat, x: T, y: T|
        property(a) && property(b) && #[trigger] arithmetic(a, b, w, x, y) ==> property(x)
            && property(y)
}

/// Every element of the sequence has the property.
pub open spec fn all_have<T>(property: spec_fn(T) -> bool, elements: Seq<T>) -> bool {
    forall|i: int| 0 <= i < elements.len() ==> property(#[trigger] elements[i])
}

/// A stage keeps what the arithmetic keeps.
proof fn lemma_stage_preserves<T>(
    property: spec_fn(T) -> bool,
    arithmetic: Arithmetic<T>,
    stage: nat,
    stages: nat,
    before: Seq<T>,
    after: Seq<T>,
)
    requires
        stage < stages,
        preserved_by(property, arithmetic),
        stage_applied(arithmetic, stage, stages, before, after),
        all_have(property, before),
    ensures
        all_have(property, after),
{
    assert forall|p: int| 0 <= p < after.len() implies property(#[trigger] after[p]) by {
        let j = butterfly_owner(stage, p as nat);
        lemma_owner_works_on_position(stage, p as nat, stages);
        lemma_butterfly_in_line(stage, j, stages);
    }
}

/// The transform of a line keeps what the arithmetic keeps: a property that
/// every element of the input has, and that no butterfly destroys, is had by
/// every element of the output.  So a line of zeros is transformed to a line
/// of zeros by any arithmetic that combines zeros to zeros.
pub proof fn lemma_line_transform_preserves<T>(
    property: spec_fn(T) -> bool,
    arithmetic: Arithmetic<T>,
    stages: nat,
    input: Seq<T>,
    output: Seq<T>,
)
    requires
        preserved_by(property, arithmetic),
        input.len() == pow2(stages),
        line_transformed(arithmetic, stages, input, output),
        all_have(property, input),
    ensures
        output.len() == input.len(),
        all_have(property, output),
{
    let states = choose|states: Seq<Seq<T>>|
        network_applied(arithmetic, stages, input, states) && #[trigger] states[stages as int]
            == output;
    lemma_states_preserve(property, arithmetic, stages, input, states, stages);
}

/// Every state of a line on its way through the network keeps what the
/// arithmetic keeps.
proof fn lemma_states_preserve<T>(
    property: spec_fn(T) -> bool,
    arithmetic: Arithmetic<T>,
    stages: nat,
    input: Seq<T>,
    states: Seq<Seq<T>>,
    upto: nat,
)
    requires
        preserved_by(property, arithmetic),
        input.len() == pow2(stages),
        network_applied(arithmetic, stages, input, states),
        all_have(property, input),
        upto <= stages,
    ensures
        states[upto as int].len() == input.len(),
        all_have(property, states[upto as int]),
    decreases upto,
{
    if upto == 0 {
        assert forall|i: int| 0 <= i < states[0].len() implies property(#[trigger] states[0][i]) by {
            lemma_reversed_bits_bound(i as nat, stages);
        }
    } else {
        lemma_states_preserve(property, arithmetic, stages, input, states, (upto - 1) as nat);
        lemma_stage_preserves(
            property,
            arithmetic,
            (upto - 1) as nat,
            stages,
            states[upto - 1],
            states[upto as int],
        );
    }
}

/// A pass keeps what the arithmetic keeps.
pub proof fn lemma_pass_preserves<T>(
    property: spec_fn(T) -> bool,
    arithmetic: Arithmetic<T>,
    pass: FftPass,
    stages: nat,
    before: Seq<T>,
    after: Seq<T>,
)
    requires
        preserved_by(property, arithmetic),
        pass_applied(arithmetic, pass, stages, before, after),
        all_have(property, before),
    ensures
        all_have(property, after),
{
    let n = pow2(stages);
    assert forall|p: int| 0 <= p < after.len() implies property(#[trigger] after[p]) by {
        lemma_texel_of_position(p as nat, n);
        let l = line_through(pass, p as nat, n);
        let i: nat = match pass {
            FftPass::Horizontal => (p % (n as int)) as nat,
            FftPass::Vertical => (p / (n as int)) as nat,
        };
        let input = line_of(before, pass, l, n);
        let output = line_of(after, pass, l, n);
        assert forall|k: int| 0 <= k < input.len() implies property(#[trigger] input[k]) by {
            lemma_line_position(pass, l, k as nat, n);
        }
        lemma_line_transform_preserves(property, arithmetic, stages, input, output);
        assert(output[i as int] == after[p]);
    }
}

/// The two-dimensional transform keeps what the arithmetic keeps.  With every
/// amplitude zero, and an arithmetic that combines zeros to zeros, the
/// transformed field is zero everywhere: the surface is flat.
pub proof fn lemma_field_transform_preserves<T>(
    property: spec_fn(T) -> bool,
    arithmetic: Arithmetic<T>,
    stages: nat,
    before: Seq<T>,
    after: Seq<T>,
)
    requires
        preserved_by(property, arithmetic),
        field_transformed(arithmetic, stages, before, after),
        all_have(property, before),
    ensures
        after.len() == before.len(),
        all_have(property, after),
{
    let between = choose|between: Seq<T>|
        pass_applied(arithmetic, FftPass::Horizontal, stages, before, between)
            && #[trigger] pass_applied(arithmetic, FftPass::Vertical, stages, between, after);
    lemma_pass_preserves(property, arithmetic, FftPass::Horizontal, stages, before, between);
    lemma_pass_preserves(property, arithmetic, FftPass::Vertical, stages, between, after);
}

} // verus!
