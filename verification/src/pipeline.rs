//! The validated description of a pipeline: field resolution, number of
//! transform stages, and the spectrum slots that feed each cascade.

use vstd::prelude::*;
use vstd::arithmetic::power2::{lemma2_to64, lemma_pow2_strictly_increases, pow2};

verus! {

/// Edge length, in texels, of every field of the reference configuration.
pub const TEXTURE_SIZE: u32 = 256;

/// Width of one compute group along each axis of a per-texel kernel.
pub const WORKGROUP_SIZE: u32 = 8;

/// Number of length scales simulated side by side.
pub const CASCADE_COUNT: usize = 4;

/// Number of spectrum parameter slots.
pub const SPECTRUM_SLOT_COUNT: usize = 8;

/// `n` is an exact power of two.
pub open spec fn is_power_of_two(n: nat) -> bool {
    exists|e: nat| pow2(e) == n
}

/// The exponent of `n` when `n` is a power of two, and nothing otherwise.
pub fn exact_log2(n: u32) -> (e: Option<u32>)
    ensures
        e matches Some(k) ==> k < 32 && pow2(k as nat) == n,
        e is None <==> !is_power_of_two(n as nat),
{
    let mut p: u32 = 1;
    let mut k: u32 = 0;
    proof {
        lemma2_to64();
    }
    while p < n && k < 31
        invariant
            k <= 31,
            p == pow2(k as nat),
            forall|j: nat| j < k ==> pow2(j) < n,
        decreases 31 - k,
    {
        proof {
            lemma2_to64();
        }
        p = p * 2;
        k = k + 1;
    }
    if p == n {
        Some(k)
    } else {
        proof {
            assert forall|j: nat| pow2(j) != n by {
                if j > k && p > n {
                    lemma_pow2_strictly_increases(k as nat, j);
                } else if j > 32 {
                    lemma_pow2_strictly_increases(32, j);
                }
            }
        }
        None
    }
}

/// Why a configuration was turned down at setup.
#[derive(Clone, Copy, Debug, PartialEq, Eq, Structural)]
pub enum ConfigError {
    /// The field resolution is not an exact power of two.
    SizeNotPowerOfTwo,
    /// The field resolution is not a multiple of the compute group width.
    SizeNotDivisibleByGroupWidth,
    /// A cascade names a spectrum slot that does not exist.
    SlotOutOfRange,
    /// A spectrum slot is named twice.
    SlotUsedTwice,
}

/// The two spectrum slots whose energies are summed into one cascade.
#[derive(Clone, Copy, Debug, PartialEq, Eq, Structural)]
pub struct CascadeSlots {
    pub first: usize,
    pub second: usize,
}

/// The slots of all cascades in cascade order, two for each.
pub open spec fn slot_sequence(cascades: Seq<CascadeSlots>) -> Seq<usize> {
    Seq::new(
        2 * cascades.len(),
        |i: int|
            if i % 2 == 0 {
                cascades[i / 2].first
            } else {
                cascades[i / 2].second
            },
    )
}

/// Every named slot exists.
pub open spec fn slots_in_range(slots: Seq<usize>) -> bool {
    forall|i: int| 0 <= i < slots.len() ==> slots[i] < SPECTRUM_SLOT_COUNT
}

/// No slot is named twice.
pub open spec fn slots_distinct(slots: Seq<usize>) -> bool {
    forall|i: int, j: int| 0 <= i < j < slots.len() ==> slots[i] != slots[j]
}

/// The first reason, in order of precedence, for which a resolution and a slot
/// assignment are turned down; nothing when they are valid.
pub open spec fn config_error(n: nat, cascades: Seq<CascadeSlots>) -> Option<ConfigError> {
    if !is_power_of_two(n) {
        Some(ConfigError::SizeNotPowerOfTwo)
    } else if n % (WORKGROUP_SIZE as nat) != 0 {
        Some(ConfigError::SizeNotDivisibleByGroupWidth)
    } else if !slots_in_range(slot_sequence(cascades)) {
        Some(ConfigError::SlotOutOfRange)
    } else if !slots_distinct(slot_sequence(cascades)) {
        Some(ConfigError::SlotUsedTwice)
    } else {
        None
    }
}

/// What a pipeline was configured with.
pub struct PipelineShape {
    /// Edge length of every field, in texels.
    pub size: nat,
    /// Number of butterfly stages of one transform: the exponent of `size`.
    pub stages: nat,
    /// The slot pair of each cascade.
    pub cascades: Seq<CascadeSlots>,
}

impl PipelineShape {
    /// The shape passes validation and its stage count matches its size.
    pub open spec fn valid(self) -> bool {
        &&& self.cascades.len() == CASCADE_COUNT
        &&& config_error(self.size, self.cascades) is None
        &&& pow2(self.stages) == self.size
        &&& 3 <= self.stages < 32
    }
}

/// A pipeline whose configuration has passed validation.
#[derive(Clone, Copy, Debug)]
pub struct OceanComputePipeline {
    n: u32,
    log_n: u32,
    cascades: [CascadeSlots; 4],
}

impl View for OceanComputePipeline {
    type V = PipelineShape;

    closed spec fn view(&self) -> PipelineShape {
        PipelineShape { size: self.n as nat, stages: self.log_n as nat, cascades: self.cascades@ }
    }
}

/// Slot assignment of the reference configuration: cascade `c` sums the slots
/// `2c` and `2c + 1`.
pub fn default_cascade_slots() -> (cascades: [CascadeSlots; 4])
    ensures
        forall|c: int|
            0 <= c < 4 ==> cascades@[c] == (CascadeSlots {
                first: (2 * c) as usize,
                second: (2 * c + 1) as usize,
            }),
{
    [
        CascadeSlots { first: 0, second: 1 },
        CascadeSlots { first: 2, second: 3 },
        CascadeSlots { first: 4, second: 5 },
        CascadeSlots { first: 6, second: 7 },
    ]
}

/// The slot assignment of the reference configuration names every slot once.
pub proof fn lemma_default_slots_are_valid(cascades: Seq<CascadeSlots>)
    requires
        cascades.len() == CASCADE_COUNT,
        forall|c: int|
            0 <= c < 4 ==> cascades[c] == (CascadeSlots {
                first: (2 * c) as usize,
                second: (2 * c + 1) as usize,
            }),
    ensures
        slots_in_range(slot_sequence(cascades)),
        slots_distinct(slot_sequence(cascades)),
{
}

impl Default for OceanComputePipeline {
    /// The pipeline of the reference configuration: fields of
    /// [`TEXTURE_SIZE`] texels a side, and cascade `c` fed by the slots `2c`
    /// and `2c + 1`.
    fn default() -> (pipeline: Self)
        ensures
            pipeline@.valid(),
            pipeline@.size == TEXTURE_SIZE,
            pipeline@.stages == 8,
            forall|c: int|
                0 <= c < 4 ==> pipeline@.cascades[c] == (CascadeSlots {
                    first: (2 * c) as usize,
                    second: (2 * c + 1) as usize,
                }),
    {
        let cascades = default_cascade_slots();
        proof {
            lemma2_to64();
        }
        OceanComputePipeline { n: TEXTURE_SIZE, log_n: 8, cascades }
    }
}

impl OceanComputePipeline {
    #[verifier::type_invariant]
    spec fn inv(&self) -> bool {
        self@.valid()
    }

    /// Validates a resolution and a slot assignment and describes the pipeline
    /// built on them.  A resolution that is not a power of two, or not a
    /// multiple of [`WORKGROUP_SIZE`], is turned down, as is a slot assignment
    /// that names a missing slot or names one twice.
    #[verifier::loop_isolation(false)]
    pub fn new(n: u32, cascades: [CascadeSlots; 4]) -> (made: Result<Self, ConfigError>)
        ensures
            match config_error(n as nat, cascades@) {
                Some(e) => made == Err::<Self, ConfigError>(e),
                None => made is Ok && made->Ok_0@.valid() && made->Ok_0@.size == n
                    && made->Ok_0@.cascades == cascades@,
            },
    {
        let log_n = match exact_log2(n) {
            Some(k) => k,
            None => {
                return Err(ConfigError::SizeNotPowerOfTwo);
            },
        };
        if n % WORKGROUP_SIZE != 0 {
            return Err(ConfigError::SizeNotDivisibleByGroupWidth);
        }
        let mut flat: Vec<usize> = Vec::new();
        let mut c: usize = 0;
        while c < 4
            invariant
                c <= 4,
                flat@.len() == 2 * c,
                forall|i: int| 0 <= i < 2 * c ==> flat@[i] == slot_sequence(cascades@)[i],
            decreases 4 - c,
        {
            flat.push(cascades[c].first);
            flat.push(cascades[c].second);
            c = c + 1;
        }
        assert(flat@ =~= slot_sequence(cascades@));
        let mut i: usize = 0;
        while i < 8
            invariant
                i <= 8,
                flat@.len() == 8,
                forall|k: int| 0 <= k < i ==> flat@[k] < SPECTRUM_SLOT_COUNT,
            decreases 8 - i,
        {
            if flat[i] >= SPECTRUM_SLOT_COUNT {
                return Err(ConfigError::SlotOutOfRange);
            }
            i = i + 1;
        }
        let mut a: usize = 0;
        while a < 8
            invariant
                a <= 8,
                flat@.len() == 8,
                forall|i: int, j: int| 0 <= i < j < 8 && i < a ==> flat@[i] != flat@[j],
            decreases 8 - a,
        {
            let mut b: usize = a + 1;
            while b < 8
                invariant
                    a < b <= 8,
                    flat@.len() == 8,
                    forall|j: int| a < j < b ==> flat@[a as int] != flat@[j],
                decreases 8 - b,
            {
                if flat[a] == flat[b] {
                    return Err(ConfigError::SlotUsedTwice);
                }
                b = b + 1;
            }
            a = a + 1;
        }
        proof {
            lemma_pow2_at_least_eight(log_n as nat);
        }
        Ok(OceanComputePipeline { n, log_n, cascades })
    }

    /// Edge length of every field, in texels.
    pub fn size(&self) -> (n: u32)
        ensures
            n == self@.size,
            self@.valid(),
    {
        proof {
            use_type_invariant(self);
        }
        self.n
    }

    /// Number of butterfly stages of one transform.
    pub fn stages(&self) -> (s: u32)
        ensures
            s == self@.stages,
            self@.valid(),
    {
        proof {
            use_type_invariant(self);
        }
        self.log_n
    }

    /// The slot pair summed into cascade `cascade`, if there is such a cascade.
    pub fn cascade_slots(&self, cascade: usize) -> (slots: Option<CascadeSlots>)
        ensures
            slots == if cascade < CASCADE_COUNT {
                Some(self@.cascades[cascade as int])
            } else {
                None
            },
            self@.valid(),
    {
        proof {
            use_type_invariant(self);
        }
        if cascade < CASCADE_COUNT {
            Some(self.cascades[cascade])
        } else {
            None
        }
    }
}

/// A valid shape has a resolution that is a power of two, a multiple of the
/// group width and at least one group wide; every slot that a cascade names
/// exists, and none is named twice.
pub proof fn lemma_valid_shape(shape: PipelineShape)
    requires
        shape.valid(),
    ensures
        is_power_of_two(shape.size),
        shape.size % (WORKGROUP_SIZE as nat) == 0,
        shape.size >= WORKGROUP_SIZE,
        shape.size < 0x1_0000_0000,
        slots_in_range(slot_sequence(shape.cascades)),
        slots_distinct(slot_sequence(shape.cascades)),
{
    lemma2_to64();
}

/// A power of two that is a multiple of eight has an exponent of at least three.
proof fn lemma_pow2_at_least_eight(e: nat)
    requires
        pow2(e) % 8 == 0,
    ensures
        e >= 3,
{
    lemma2_to64();
}

} // verus!
