//! Compressing vectors: how many bits each coordinate takes, the levels it is
//! rounded to, and the seeds of the random rotations.

use vstd::prelude::*;

verus! {

/// What a compressed vector is meant for.
#[derive(Debug, Clone, Copy, PartialEq, Eq, Structural)]
pub enum TurboQuantMode {
    /// The least squared error. Uses all the bits for the level.
    Mse,
    /// Inner products without bias. One bit of each coordinate goes to the sign
    /// of what is left over.
    InnerProduct,
}

/// How vectors are compressed.
#[derive(Debug, Clone, Copy, PartialEq, Eq, Structural)]
pub struct TurboQuantConfig {
    /// Bits per coordinate.
    pub bit_width: usize,
    /// Coordinates of a vector.
    pub dim: usize,
    pub mode: TurboQuantMode,
    /// Seed of the random matrices.
    pub seed: u64,
}

impl TurboQuantConfig {
    /// Whether vectors can be compressed this way: one to four bits, a bit left
    /// over for the sign where one is needed, and a coordinate at least.
    pub open spec fn supported(self) -> bool {
        &&& 1 <= self.bit_width <= 4
        &&& self.dim > 0
        &&& self.mode == TurboQuantMode::InnerProduct ==> self.bit_width >= 2
    }

    /// Bits of a coordinate's level.
    pub open spec fn level_bits(self) -> int {
        match self.mode {
            TurboQuantMode::Mse => self.bit_width as int,
            TurboQuantMode::InnerProduct => self.bit_width - 1,
        }
    }

    pub fn is_supported(&self) -> (r: bool)
        ensures
            r == self.supported(),
    {
        1 <= self.bit_width && self.bit_width <= 4 && self.dim > 0 && match self.mode {
            TurboQuantMode::Mse => true,
            TurboQuantMode::InnerProduct => self.bit_width >= 2,
        }
    }

    /// Bits of a coordinate's level.
    pub fn mse_bits(&self) -> (r: usize)
        requires
            self.supported(),
        ensures
            r == self.level_bits(),
            1 <= r <= 4,
    {
        match self.mode {
            TurboQuantMode::Mse => self.bit_width,
            TurboQuantMode::InnerProduct => self.bit_width - 1,
        }
    }

    /// The same compression for values, with other random matrices than for
    /// keys.
    pub fn for_values(&self) -> (r: Self)
        ensures
            r == (TurboQuantConfig {
                seed: ((self.seed + 1000) % 0x1_0000_0000_0000_0000) as u64,
                ..*self
            }),
    {
        TurboQuantConfig {
            bit_width: self.bit_width,
            dim: self.dim,
            mode: self.mode,
            seed: self.seed.wrapping_add(1000),
        }
    }

    /// The seed of the projection, where the mode has one.
    pub fn projection_seed(&self) -> (r: Option<u64>)
        ensures
            r == (match self.mode {
                TurboQuantMode::Mse => None::<u64>,
                TurboQuantMode::InnerProduct => Some(
                    ((self.seed + 1) % 0x1_0000_0000_0000_0000) as u64,
                ),
            }),
    {
        match self.mode {
            TurboQuantMode::Mse => None,
            TurboQuantMode::InnerProduct => Some(self.seed.wrapping_add(1)),
        }
    }
}

/// The levels that are best for a normal distribution, in ten-thousandths, in
/// ascending order.
pub open spec fn levels(bit_width: int) -> Seq<int> {
    if bit_width == 1 {
        seq![-7979, 7979]
    } else if bit_width == 2 {
        seq![-15104, -4528, 4528, 15104]
    } else if bit_width == 3 {
        seq![-21519, -13440, -7560, -2451, 2451, 7560, 13440, 21519]
    } else {
        seq![
            -27326,
            -20690,
            -16180,
            -12562,
            -9423,
            -6568,
            -3881,
            -1284,
            1284,
            3881,
            6568,
            9423,
            12562,
            16180,
            20690,
            27326,
        ]
    }
}

/// The levels for a bit width, in ten-thousandths.
pub fn lloyd_max_codebook(bit_width: usize) -> (r: Vec<i32>)
    requires
        1 <= bit_width <= 4,
    ensures
        r@.map_values(|x: i32| x as int) == levels(bit_width as int),
{
    let r: Vec<i32> = match bit_width {
        1 => vec![-7979, 7979],
        2 => vec![-15104, -4528, 4528, 15104],
        3 => vec![-21519, -13440, -7560, -2451, 2451, 7560, 13440, 21519],
        _ => vec![
            -27326,
            -20690,
            -16180,
            -12562,
            -9423,
            -6568,
            -3881,
            -1284,
            1284,
            3881,
            6568,
            9423,
            12562,
            16180,
            20690,
            27326,
        ],
    };
    assert(r@.map_values(|x: i32| x as int) =~= levels(bit_width as int));
    r
}

/// Levels are as many as the bits can tell apart, ascend, and lie as far below
/// zero as above it.
pub proof fn law_levels_are_symmetric_and_sorted(bit_width: int, i: int, j: int)
    requires
        1 <= bit_width <= 4,
        0 <= i < j < levels(bit_width).len(),
    ensures
        levels(bit_width).len() == vstd::arithmetic::power2::pow2(bit_width as nat),
        levels(bit_width)[i] < levels(bit_width)[j],
        levels(bit_width)[i] == -levels(bit_width)[levels(bit_width).len() - 1 - i],
{
    vstd::arithmetic::power2::lemma2_to64();
}

/// How many bounds, from the first on, lie below a value: the level it is
/// rounded to. Values and bounds are given by numbers that are ordered as they
/// are.
pub open spec fn bucket(value: i64, bounds: Seq<i64>, k: int) -> int
    decreases bounds.len() - k,
{
    if 0 <= k < bounds.len() && value > bounds[k] {
        bucket(value, bounds, k + 1)
    } else {
        k
    }
}

/// The level that a value is rounded to.
pub fn quantize_scalar(value: i64, bounds: &[i64]) -> (r: u8)
    requires
        bounds@.len() <= 255,
    ensures
        r == bucket(value, bounds@, 0),
{
    let mut idx: u8 = 0;
    while (idx as usize) < bounds.len() && value > bounds[idx as usize]
        invariant
            idx <= bounds@.len() <= 255,
            bucket(value, bounds@, 0) == bucket(value, bounds@, idx as int),
        decreases bounds@.len() - idx,
    {
        idx += 1;
    }
    idx
}

/// Among ascending bounds, a value is rounded to the level between its two
/// neighbours.
pub proof fn law_a_value_falls_between_its_bounds(value: i64, bounds: Seq<i64>, k: int)
    requires
        forall|i: int, j: int| 0 <= i < j < bounds.len() ==> bounds[i] < bounds[j],
        0 <= k <= bounds.len(),
        forall|i: int| 0 <= i < k ==> bounds[i] < value,
    ensures
        ({
            let b = bucket(value, bounds, k);
            &&& k <= b <= bounds.len()
            &&& forall|i: int| 0 <= i < b ==> bounds[i] < value
            &&& forall|i: int| b <= i < bounds.len() ==> value <= bounds[i]
        }),
    decreases bounds.len() - k,
{
    if k < bounds.len() && value > bounds[k] {
        law_a_value_falls_between_its_bounds(value, bounds, k + 1);
    }
}

/// Twice the midpoints between each level and the next: half of a level's
/// unit, so that they are whole numbers.
pub open spec fn midpoints(levels: Seq<i32>) -> Seq<i64> {
    Seq::new(
        if levels.len() == 0 {
            0
        } else {
            (levels.len() - 1) as nat
        },
        |i: int| (levels[i] + levels[i + 1]) as i64,
    )
}

/// Where one level ends and the next begins: twice the midpoints between them.
pub fn codebook_boundaries(centroids: &[i32]) -> (r: Vec<i64>)
    ensures
        r@ == midpoints(centroids@),
{
    let mut out: Vec<i64> = Vec::new();
    if centroids.len() == 0 {
        assert(out@ =~= midpoints(centroids@));
        return out;
    }
    let mut i: usize = 1;
    while i < centroids.len()
        invariant
            1 <= i <= centroids@.len(),
            out@.len() == i - 1,
            forall|j: int| 0 <= j < i - 1 ==> #[trigger] out@[j] == midpoints(centroids@)[j],
        decreases centroids@.len() - i,
    {
        out.push(centroids[i - 1] as i64 + centroids[i] as i64);
        i += 1;
    }
    assert(out@ =~= midpoints(centroids@));
    out
}

/// How far a value is from a level.
pub open spec fn distance(value: int, level: int) -> int {
    if value < level {
        level - value
    } else {
        value - level
    }
}

/// A value is rounded to the level nearest to it: no other is nearer.
pub proof fn law_a_value_is_rounded_to_the_nearest_level(value: i32, levels: Seq<i32>, other: int)
    requires
        forall|i: int, j: int| 0 <= i < j < levels.len() ==> levels[i] < levels[j],
        0 <= other < levels.len(),
    ensures
        ({
            let b = bucket((2 * value) as i64, midpoints(levels), 0);
            &&& 0 <= b < levels.len()
            &&& distance(value as int, levels[b] as int) <= distance(
                value as int,
                levels[other] as int,
            )
        }),
{
    let bounds = midpoints(levels);
    let v = (2 * value) as i64;
    assert forall|i: int, j: int| 0 <= i < j < bounds.len() implies bounds[i] < bounds[j] by {
        assert(levels[i] < levels[j]);
        assert(levels[i + 1] < levels[j + 1]);
    }
    law_a_value_falls_between_its_bounds(v, bounds, 0);
    let b = bucket(v, bounds, 0);
    if other < b {
        assert(bounds[b - 1] < v);
        if other < b - 1 {
            assert(levels[other] < levels[b - 1]);
        }
        assert(levels[b - 1] < levels[b]);
    } else if other > b {
        assert(v <= bounds[b]);
        if other > b + 1 {
            assert(levels[b + 1] < levels[other]);
        }
        assert(levels[b] < levels[b + 1]);
    }
}

} // verus!
