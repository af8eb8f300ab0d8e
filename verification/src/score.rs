//! Relevance scores as products of IEEE 754 single-precision factors.
use crate::order::{single_order, Order};
use vstd::prelude::*;

verus! {

/// The bit pattern of the single-precision value `1.0`.
pub const ONE_BITS: u32 = 0x3f80_0000;

/// `bits` is the pattern of a single-precision value strictly between zero
/// and one.
///
/// The values from zero up to positive infinity have the sign bit clear and
/// are ordered as their patterns are as unsigned integers, zero being all
/// bits clear. A pattern with the sign bit set, which a negative value and
/// negative zero have, is above that of one, and so is that of every NaN.
pub open spec fn is_penalty_factor(bits: u32) -> bool {
    0 < bits < ONE_BITS
}

/// The penalty factors are the values that are above zero and below one in
/// the order of single-precision values.
pub proof fn lemma_penalty_factor_is_between_zero_and_one(bits: u32)
    ensures
        is_penalty_factor(bits) <==> single_order(0, bits) == Some(Order::Less) && single_order(
            bits,
            ONE_BITS,
        ) == Some(Order::Less),
{
}

/// A relevance score: the product of a base value and of the penalty factors
/// that apply to it, each an IEEE 754 single-precision bit pattern.
///
/// The factors are kept apart, in the order in which they are to be
/// multiplied, so that the product is formed in floating point by the caller.
#[derive(Debug, Clone, PartialEq, Eq)]
pub struct Score {
    /// The score before any penalty.
    pub base: u32,
    /// The penalty factors to multiply the base by, first one first.
    pub penalties: Vec<u32>,
}

/// What a score stands for: the base value and the penalty factors in the
/// order in which they apply.
pub struct ScoreModel {
    pub base: u32,
    pub penalties: Seq<u32>,
}

impl ScoreModel {
    /// A score without penalties.
    pub open spec fn plain(base: u32) -> ScoreModel {
        ScoreModel { base, penalties: Seq::empty() }
    }

    /// This score with `factor` as one more penalty, applied last.
    pub open spec fn penalized_by(self, factor: u32) -> ScoreModel {
        ScoreModel { base: self.base, penalties: self.penalties.push(factor) }
    }
}

impl View for Score {
    type V = ScoreModel;

    open spec fn view(&self) -> ScoreModel {
        ScoreModel { base: self.base, penalties: self.penalties@ }
    }
}

impl Score {
    /// A score without penalties.
    pub fn new(base: u32) -> (s: Score)
        ensures
            s@ == ScoreModel::plain(base),
    {
        Score { base, penalties: Vec::new() }
    }

    /// This score with `factor` as one more penalty, applied last.
    pub fn penalized_by(self, factor: u32) -> (s: Score)
        ensures
            s@ == self@.penalized_by(factor),
    {
        let mut penalties = self.penalties;
        penalties.push(factor);
        Score { base: self.base, penalties }
    }
}

} // verus!
