//! Hypothesis categories about a broker feed's behaviour.

use vstd::prelude::*;

verus! {

/// A category of behaviour a broker feed may show.
#[derive(Debug, Clone, Copy, PartialEq, Eq, Hash, Structural)]
pub enum HypothesisType {
    PossibleFiltering,
    PossibleAggregation,
    PossibleDelayedRepricing,
    PossibleStickyPricing,
    PossibleSpreadFirstResponse,
}

/// The default title of each category, always phrased as a possibility.
pub open spec fn hypothesis_title(t: HypothesisType) -> Seq<char> {
    match t {
        HypothesisType::PossibleFiltering => "Possible Quote Filtering"@,
        HypothesisType::PossibleAggregation => "Possible Feed Aggregation"@,
        HypothesisType::PossibleDelayedRepricing => "Possible Delayed Repricing"@,
        HypothesisType::PossibleStickyPricing => "Possible Sticky Pricing"@,
        HypothesisType::PossibleSpreadFirstResponse => "Possible Spread-First Response"@,
    }
}

impl HypothesisType {
    /// The default title of the category.
    pub fn default_title(&self) -> (r: &'static str)
        ensures
            r@ == hypothesis_title(*self),
    {
        match self {
            HypothesisType::PossibleFiltering => "Possible Quote Filtering",
            HypothesisType::PossibleAggregation => "Possible Feed Aggregation",
            HypothesisType::PossibleDelayedRepricing => "Possible Delayed Repricing",
            HypothesisType::PossibleStickyPricing => "Possible Sticky Pricing",
            HypothesisType::PossibleSpreadFirstResponse => "Possible Spread-First Response",
        }
    }
}

} // verus!
