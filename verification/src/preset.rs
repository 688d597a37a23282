//! Strength and stroke presets.
//!
//! A strength selects the smoothing kernel, its normalization divisor, and
//! the two hysteresis threshold fractions; a stroke selects the optional
//! thickening pass.  Threshold fractions are kept as integer percents: the
//! high threshold is `high_pct/100` of the maximum suppressed magnitude and
//! the low threshold `low_pct/100` of it.

use vstd::prelude::*;

verus! {

/// Detection strength preset.  Lower strength uses a wider, stronger blur
/// (more noise suppression, fewer edges); higher strength uses a narrower
/// blur and lower thresholds (more edges, more noise sensitivity).
#[derive(Clone, Copy, Debug, PartialEq, Eq, Structural)]
pub enum Strength {
    Low,
    Medium,
    High,
}

/// Stroke thickness preset for the optional morphological thickening pass.
#[derive(Clone, Copy, Debug, PartialEq, Eq, Structural)]
pub enum Stroke {
    Thin,
    Medium,
    Thick,
}

/// The smoothing kernel of a strength preset: an odd-length sequence of
/// non-negative binomial weights.
pub open spec fn kernel_spec(s: Strength) -> Seq<int> {
    match s {
        Strength::Low => seq![1, 6, 15, 20, 15, 6, 1],
        Strength::Medium => seq![1, 4, 6, 4, 1],
        Strength::High => seq![1, 2, 1],
    }
}

/// The normalization divisor of a strength preset; equals the sum of the
/// kernel weights.
pub open spec fn norm_spec(s: Strength) -> int {
    match s {
        Strength::Low => 64,
        Strength::Medium => 16,
        Strength::High => 4,
    }
}

/// High threshold fraction of a strength preset, in percent of the maximum
/// suppressed magnitude.
pub open spec fn high_pct_spec(s: Strength) -> int {
    match s {
        Strength::Low => 25,
        Strength::Medium => 20,
        Strength::High => 15,
    }
}

/// Low threshold fraction of a strength preset, in percent of the maximum
/// suppressed magnitude.
pub open spec fn low_pct_spec(s: Strength) -> int {
    match s {
        Strength::Low => 10,
        Strength::Medium => 8,
        Strength::High => 6,
    }
}

/// Sum of the first `n` kernel weights.
pub open spec fn ksum(k: Seq<int>, n: int) -> int
    decreases n,
{
    if n <= 0 {
        0
    } else {
        ksum(k, n - 1) + k[n - 1]
    }
}

/// For every strength, the kernel weights are non-negative, the kernel has
/// odd length at most 7, and the weights sum to the normalization divisor.
pub proof fn lemma_kernel_well_formed(s: Strength)
    ensures
        kernel_spec(s).len() % 2 == 1,
        kernel_spec(s).len() <= 7,
        forall|i: int| 0 <= i < kernel_spec(s).len() ==> 0 <= #[trigger] kernel_spec(s)[i] <= 20,
        ksum(kernel_spec(s), kernel_spec(s).len() as int) == norm_spec(s),
        1 <= norm_spec(s) <= 64,
{
    reveal_with_fuel(ksum, 9);
    match s {
        Strength::Low => {
            assert(ksum(kernel_spec(s), 7) == 64);
        },
        Strength::Medium => {
            assert(ksum(kernel_spec(s), 5) == 16);
        },
        Strength::High => {
            assert(ksum(kernel_spec(s), 3) == 4);
        },
    }
}

/// Resolves a strength preset to its smoothing kernel, normalization
/// divisor, and high/low threshold percents.  Always succeeds.
pub fn preset_for_strength(s: Strength) -> (r: (Vec<i64>, i64, i64, i64))
    ensures
        r.0@.map_values(|v: i64| v as int) == kernel_spec(s),
        r.1 == norm_spec(s),
        r.2 == high_pct_spec(s),
        r.3 == low_pct_spec(s),
{
    let k: Vec<i64> = match s {
        Strength::Low => vec![1, 6, 15, 20, 15, 6, 1],
        Strength::Medium => vec![1, 4, 6, 4, 1],
        Strength::High => vec![1, 2, 1],
    };
    let (norm, high_pct, low_pct): (i64, i64, i64) = match s {
        Strength::Low => (64, 25, 10),
        Strength::Medium => (16, 20, 8),
        Strength::High => (4, 15, 6),
    };
    proof {
        assert(k@.map_values(|v: i64| v as int) =~= kernel_spec(s));
    }
    (k, norm, high_pct, low_pct)
}

} // verus!
