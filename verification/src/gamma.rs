//! Gamma correction.
//!
//! A raw intensity `raw` in `0..=255` is sent to the chip as the level
//! `floor(255^(raw / 255))`, with real exponentiation. For a whole number
//! `level`, `level <= 255^(raw / 255) < level + 1` says the same as
//! `level^255 <= 255^raw < (level + 1)^255`, and that is how the level is
//! defined and computed here: in integers, exactly.

use vstd::prelude::*;
use vstd::arithmetic::power::*;
use crate::natural::{capacity, radix, Wide};

verus! {

/// `level` is `255^(raw / 255)` rounded down.
pub open spec fn is_gamma_level(raw: int, level: int) -> bool {
    &&& 0 <= raw
    &&& 0 <= level
    &&& pow(level, 255) <= pow(255, raw as nat)
    &&& pow(255, raw as nat) < pow(level + 1, 255)
}

/// The gamma-corrected level of a raw intensity.
pub open spec fn gamma_level(raw: u8) -> u8 {
    choose|level: u8| is_gamma_level(raw as int, level as int)
}

/// The gamma levels of the raw intensities 0 to 255, in order.
pub open spec fn gamma_levels() -> Seq<u8> {
    Seq::new(256, |raw: int| gamma_level(raw as u8))
}

/// Powers grow with their base.
pub proof fn lemma_pow_base_increases(a: int, b: int, e: nat)
    requires
        0 <= a <= b,
    ensures
        0 <= pow(a, e) <= pow(b, e),
    decreases e,
{
    reveal(pow);
    if e > 0 {
        lemma_pow_base_increases(a, b, (e - 1) as nat);
        let x = pow(a, (e - 1) as nat);
        let y = pow(b, (e - 1) as nat);
        assert(0 <= a * x && a * x <= b * y) by (nonlinear_arith)
            requires
                0 <= a <= b,
                0 <= x <= y,
        ;
    }
}

/// Positive powers grow strictly with their base.
pub proof fn lemma_pow_base_strictly_increases(a: int, b: int, e: nat)
    requires
        0 <= a < b,
        e > 0,
    ensures
        pow(a, e) < pow(b, e),
{
    reveal(pow);
    lemma_pow_base_increases(a, b, (e - 1) as nat);
    lemma_pow_positive(b, (e - 1) as nat);
    let x = pow(a, (e - 1) as nat);
    let y = pow(b, (e - 1) as nat);
    assert(a * x < b * y) by (nonlinear_arith)
        requires
            0 <= a < b,
            0 <= x <= y,
            0 < y,
    ;
}

/// `256^256` is the capacity of a [`Wide`], so `256^255` fits.
pub proof fn lemma_capacity_is_power_of_256()
    ensures
        capacity() == pow(256, 256),
        pow(256, 255) < capacity(),
{
    assert(pow(256, 4) == radix()) by {
        reveal_with_fuel(pow, 5);
    }
    lemma_pow_multiplies(256, 4, 64);
    lemma_pow_strictly_increases(256, 255, 256);
}

/// A raw intensity has at most one gamma level.
pub proof fn lemma_gamma_level_unique(raw: int, a: int, b: int)
    requires
        is_gamma_level(raw, a),
        is_gamma_level(raw, b),
    ensures
        a == b,
{
    if a < b {
        lemma_pow_base_increases(a + 1, b, 255);
    }
    if b < a {
        lemma_pow_base_increases(b + 1, a, 255);
    }
}

/// A gamma level of a raw intensity in `0..=255` lies in `1..=255`.
pub proof fn lemma_gamma_level_range(raw: int, level: int)
    requires
        0 <= raw <= 255,
        is_gamma_level(raw, level),
    ensures
        1 <= level <= 255,
{
    lemma_pow_positive(255, raw as nat);
    if level == 0 {
        lemma1_pow(255);
    }
    if level >= 256 {
        lemma_pow_base_increases(256, level, 255);
        lemma_pow_base_strictly_increases(255, 256, 255);
        lemma_pow_increases(255, raw as nat, 255);
    }
}

/// Between a base whose 255th power is at most `255^raw` and a larger one
/// whose 255th power exceeds it, some level is the gamma level of `raw`.
proof fn lemma_gamma_level_between(raw: int, low: int, high: int)
    requires
        0 <= raw,
        0 <= low < high,
        pow(low, 255) <= pow(255, raw as nat),
        pow(255, raw as nat) < pow(high, 255),
    ensures
        exists|level: int| low <= level < high && is_gamma_level(raw, level),
    decreases high - low,
{
    if pow(255, raw as nat) < pow(low + 1, 255) {
        assert(is_gamma_level(raw, low));
    } else {
        lemma_gamma_level_between(raw, low + 1, high);
    }
}

/// Every raw intensity has a gamma level, and [`gamma_level`] names it.
pub proof fn lemma_gamma_level_defined(raw: u8)
    ensures
        is_gamma_level(raw as int, gamma_level(raw) as int),
        1 <= gamma_level(raw),
{
    lemma1_pow(255);
    lemma_pow_positive(255, raw as nat);
    lemma_pow_increases(255, raw as nat, 255);
    lemma_pow_base_strictly_increases(255, 256, 255);
    lemma_gamma_level_between(raw as int, 1, 256);
    let level = choose|level: int| 1 <= level < 256 && is_gamma_level(raw as int, level);
    assert(is_gamma_level(raw as int, (level as u8) as int));
    lemma_gamma_level_range(raw as int, gamma_level(raw) as int);
}

/// The level that a given level of a raw intensity must be.
pub proof fn lemma_gamma_level_is(raw: u8, level: u8)
    requires
        is_gamma_level(raw as int, level as int),
    ensures
        gamma_level(raw) == level,
{
    lemma_gamma_level_unique(raw as int, level as int, gamma_level(raw) as int);
}

/// A raw intensity of 0 is sent as level 1.
pub proof fn lemma_gamma_level_of_zero()
    ensures
        gamma_level(0) == 1,
{
    lemma_pow0(255);
    lemma1_pow(255);
    lemma_pow_base_strictly_increases(1, 2, 255);
    lemma_gamma_level_is(0, 1);
}

/// A raw intensity of 255 is sent as level 255.
pub proof fn lemma_gamma_level_of_full()
    ensures
        gamma_level(255) == 255,
{
    lemma_pow_base_strictly_increases(255, 256, 255);
    lemma_gamma_level_is(255, 255);
}

/// A brighter raw intensity never gets a lower level.
pub proof fn lemma_gamma_level_monotonic(dim: u8, bright: u8)
    requires
        dim <= bright,
    ensures
        gamma_level(dim) <= gamma_level(bright),
{
    lemma_gamma_level_defined(dim);
    lemma_gamma_level_defined(bright);
    lemma_pow_increases(255, dim as nat, bright as nat);
    if gamma_level(bright) < gamma_level(dim) {
        lemma_pow_base_increases(gamma_level(bright) as int + 1, gamma_level(dim) as int, 255);
    }
}

/// A sequence that holds a gamma level for each raw intensity is the
/// sequence of the gamma levels.
proof fn lemma_levels_are_gamma_levels(levels: Seq<u8>)
    requires
        levels.len() == 256,
        forall|raw: int| 0 <= raw < 256 ==> is_gamma_level(raw, #[trigger] levels[raw] as int),
    ensures
        levels == gamma_levels(),
{
    assert forall|raw: int| 0 <= raw < 256 implies levels[raw] == gamma_level(raw as u8) by {
        lemma_gamma_level_is(raw as u8, levels[raw]);
    }
    assert(levels =~= gamma_levels());
}

/// The gamma levels of all 256 raw intensities.
pub struct GammaTable {
    levels: Vec<u8>,
}

impl GammaTable {
    #[verifier::type_invariant]
    spec fn holds_gamma_levels(&self) -> bool {
        &&& self.levels@.len() == 256
        &&& forall|raw: int|
            0 <= raw < 256 ==> is_gamma_level(raw, #[trigger] self.levels@[raw] as int)
    }

    /// The table as a sequence: position `raw` holds the level of `raw`.
    pub closed spec fn view(&self) -> Seq<u8> {
        self.levels@
    }

    /// Computes the table.
    ///
    /// The levels never decrease with the raw intensity, so one pass finds
    /// them all: `reached` holds `255^raw`, `above` holds `(level + 1)^255`,
    /// and the level is raised for as long as `above` does not exceed
    /// `reached`.
    pub fn new() -> (r: Self)
        ensures
            r@ == gamma_levels(),
    {
        let mut levels: Vec<u8> = Vec::new();
        let mut level: u32 = 1;
        let mut reached = Wide::from_small(1);
        proof {
            lemma_capacity_is_power_of_256();
            lemma_pow_base_increases(2, 256, 255);
            lemma_pow0(255);
            lemma1_pow(255);
        }
        let mut above = Wide::power_of(2, 255);
        let mut raw: u32 = 0;
        while raw < 256
            invariant
                raw <= 256,
                levels@.len() == raw,
                1 <= level <= 255,
                reached.value() == pow(255, raw as nat),
                above.value() == pow(level as int + 1, 255),
                pow(level as int, 255) <= pow(255, raw as nat),
                capacity() == pow(256, 256),
                pow(256, 255) < capacity(),
                forall|k: int| 0 <= k < raw ==> is_gamma_level(k, #[trigger] levels@[k] as int),
            decreases 256 - raw,
        {
            let mut more = above.le(&reached);
            while more
                invariant
                    raw < 256,
                    1 <= level <= 255,
                    reached.value() == pow(255, raw as nat),
                    above.value() == pow(level as int + 1, 255),
                    pow(level as int, 255) <= pow(255, raw as nat),
                    more == (above.value() <= reached.value()),
                    pow(256, 255) < capacity(),
                decreases 255 - level,
            {
                proof {
                    lemma_pow_increases(255, raw as nat, 255);
                    if level >= 255 {
                        lemma_pow_base_increases(256, level as int + 1, 255);
                        lemma_pow_base_strictly_increases(255, 256, 255);
                    }
                }
                level += 1;
                proof {
                    lemma_pow_base_increases(level as int + 1, 256, 255);
                }
                above = Wide::power_of(level + 1, 255);
                more = above.le(&reached);
            }
            let ghost before = levels@;
            levels.push(level as u8);
            proof {
                assert(is_gamma_level(raw as int, levels@[raw as int] as int));
                assert forall|k: int| 0 <= k < raw + 1 implies is_gamma_level(
                    k,
                    #[trigger] levels@[k] as int,
                ) by {
                    if k < raw {
                        assert(levels@[k] == before[k]);
                    }
                }
                assert(pow(255, (raw + 1) as nat) == 255 * pow(255, raw as nat)) by {
                    reveal(pow);
                }
                lemma_pow_increases(255, (raw + 1) as nat, 256);
                lemma_pow_base_strictly_increases(255, 256, 256);
                lemma_pow_increases(255, raw as nat, (raw + 1) as nat);
            }
            reached = reached.mul_small(255);
            raw += 1;
        }
        proof {
            lemma_levels_are_gamma_levels(levels@);
        }
        GammaTable { levels }
    }

    /// The gamma-corrected level of `raw`.
    pub fn level(&self, raw: u8) -> (r: u8)
        ensures
            r == gamma_level(raw),
            self@ == gamma_levels(),
    {
        proof {
            use_type_invariant(self);
            lemma_levels_are_gamma_levels(self.levels@);
        }
        self.levels[raw as usize]
    }

    /// The whole table: position `raw` holds the level of `raw`.
    pub fn levels(&self) -> (r: &[u8])
        ensures
            r@ == gamma_levels(),
            self@ == gamma_levels(),
    {
        proof {
            use_type_invariant(self);
            lemma_levels_are_gamma_levels(self.levels@);
        }
        self.levels.as_slice()
    }
}

} // verus!
