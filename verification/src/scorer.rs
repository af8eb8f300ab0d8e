//! Scoring on top of iteration.
use crate::doc_iterator::DocIterator;
use crate::error::SearchError;
use crate::score::{Score, ScoreModel};
use vstd::prelude::*;

verus! {

/// A document iterator that scores the match it stands on.
///
/// A scorer is stateful and single-pass. Its score is defined only while it
/// stands on a confirmed match.
pub trait Scorer: DocIterator {
    /// The score that `score` reports in this state.
    spec fn spec_score(&self) -> ScoreModel;

    /// The score of the current match.
    ///
    /// The scorer does not move. A combinator may move a child that does not
    /// drive its position, but never so that a later call would score the same
    /// match differently.
    fn score(&mut self) -> (r: Result<Score, SearchError>)
        requires
            old(self).wf(),
            old(self).postings().on_match(),
        ensures
            final(self).wf(),
            old(self).same_source(final(self)),
            final(self).postings() == old(self).postings(),
            r matches Ok(s) ==> s@ == old(self).spec_score() && final(self).spec_score() == old(
                self
            ).spec_score(),
    ;
}

} // verus!
