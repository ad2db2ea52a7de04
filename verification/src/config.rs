//! Configuration of the prewhere optimization.
use vstd::prelude::*;

verus! {

/// A ratio of column counts, kept as an exact fraction.
#[derive(Debug, Clone, Copy)]
pub struct ColumnRatio {
    numerator: u64,
    denominator: u64,
}

impl ColumnRatio {
    #[verifier::type_invariant]
    spec fn well_formed(self) -> bool {
        self.denominator > 0
    }

    /// The numerator of the fraction.
    pub closed spec fn spec_numerator(self) -> nat {
        self.numerator as nat
    }

    /// The denominator of the fraction.
    pub closed spec fn spec_denominator(self) -> nat {
        self.denominator as nat
    }

    /// The ratio `numerator / denominator`.
    pub fn new(numerator: u64, denominator: u64) -> (ratio: Self)
        requires
            denominator > 0,
        ensures
            ratio.spec_numerator() == numerator,
            ratio.spec_denominator() == denominator,
    {
        ColumnRatio { numerator, denominator }
    }

    /// Whether `part` out of `total` is a share of at most this ratio. No share
    /// of nothing is.
    pub open spec fn spec_admits(self, part: nat, total: nat) -> bool {
        total > 0 && part * self.spec_denominator() <= self.spec_numerator() * total
    }

    /// Whether `part` out of `total` is a share of at most this ratio.
    pub fn admits(&self, part: usize, total: usize) -> (admitted: bool)
        ensures
            admitted == self.spec_admits(part as nat, total as nat),
            admitted <==> total > 0 && part * self.spec_denominator() <= self.spec_numerator()
                * total,
    {
        if total == 0 {
            return false;
        }
        assert(part as u128 * self.denominator as u128 <= u64::MAX as u128 * u64::MAX as u128)
            by (nonlinear_arith)
            requires
                part <= u64::MAX,
                self.denominator <= u64::MAX,
        ;
        assert(self.numerator as u128 * total as u128 <= u64::MAX as u128 * u64::MAX as u128)
            by (nonlinear_arith)
            requires
                total <= u64::MAX,
                self.numerator <= u64::MAX,
        ;
        (part as u128) * (self.denominator as u128) <= (self.numerator as u128) * (total as u128)
    }
}

/// When the prewhere phase is worth its second read.
#[derive(Debug, Clone, Copy)]
pub struct PrewhereConfig {
    /// Whether prewhere is used at all.
    pub enable: bool,
    /// The least number of columns that must be left to read after prewhere.
    pub min_remaining_columns: usize,
    /// The largest share of the columns that prewhere may read.
    pub column_ratio_threshold: ColumnRatio,
}

impl PrewhereConfig {
    /// Returns the largest share of the columns that prewhere may read.
    pub fn column_ratio_threshold(&self) -> (ratio: ColumnRatio)
        ensures
            ratio == self.column_ratio_threshold,
    {
        self.column_ratio_threshold
    }
}

impl Default for PrewhereConfig {
    /// Prewhere is on, leaves at least two columns, and reads at most half.
    fn default() -> (config: Self)
        ensures
            config.enable,
            config.min_remaining_columns == 2,
            config.column_ratio_threshold.spec_numerator() == 1,
            config.column_ratio_threshold.spec_denominator() == 2,
    {
        PrewhereConfig {
            enable: true,
            min_remaining_columns: 2,
            column_ratio_threshold: ColumnRatio::new(1, 2),
        }
    }
}

} // verus!
