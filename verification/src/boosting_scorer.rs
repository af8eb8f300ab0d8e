//! A combinator that lowers the score of matches that a second query also
//! matches, without excluding them.
use crate::doc_iterator::DocIterator;
use crate::error::SearchError;
use crate::postings::{lemma_advance_settles, DocId, Postings};
use crate::score::{is_penalty_factor, Score, ScoreModel, ONE_BITS};
use crate::scorer::Scorer;
use vstd::prelude::*;

verus! {

/// Scores the matches of a primary scorer, multiplied by a penalty factor
/// where a second scorer matches the same document.
///
/// The primary scorer alone decides which documents match and drives the
/// position. The penalty scorer is moved only while a score is computed, and
/// only forward, up to the primary's position.
pub struct BoostingScorer<P: Scorer, N: Scorer> {
    positive: P,
    negative: N,
    negative_boost: u32,
}

/// The score of a match of the primary scorer at `primary_doc`, given its own
/// score there and the position `penalty_doc` that the penalty scorer reached
/// when it was advanced to `primary_doc`: penalized by `factor` where the two
/// positions are the same, and unchanged where they are not.
pub fn penalized_score(score: Score, primary_doc: DocId, penalty_doc: DocId, factor: u32) -> (s:
    Score)
    ensures
        s@ == if penalty_doc == primary_doc {
            score@.penalized_by(factor)
        } else {
            score@
        },
{
    if primary_doc == penalty_doc {
        score.penalized_by(factor)
    } else {
        score
    }
}

impl<P: Scorer, N: Scorer> BoostingScorer<P, N> {
    /// The scorer that decides which documents match.
    pub closed spec fn primary(&self) -> P {
        self.positive
    }

    /// The scorer whose matches are penalized.
    pub closed spec fn penalty(&self) -> N {
        self.negative
    }

    /// The bit pattern of the penalty factor.
    pub closed spec fn factor(&self) -> u32 {
        self.negative_boost
    }

    /// Advanced to the primary's position, the penalty scorer would stand on
    /// that same document.
    pub open spec fn penalty_applies(&self) -> bool {
        self.penalty().postings().after_advance(self.primary().postings().doc_id()).doc_id()
            == self.primary().postings().doc_id()
    }

    /// Combines `positive` with the penalty scorer `negative`, whose matches
    /// have their score multiplied by the single-precision value with the bit
    /// pattern `negative_boost`. That value must lie strictly between zero and
    /// one; any other is rejected.
    pub fn new(positive: P, negative: N, negative_boost: u32) -> (r: Result<
        BoostingScorer<P, N>,
        SearchError,
    >)
        ensures
            is_penalty_factor(negative_boost) ==> r is Ok,
            !is_penalty_factor(negative_boost) ==> r == Err::<BoostingScorer<P, N>, SearchError>(
                SearchError::PenaltyOutOfRange,
            ),
            r matches Ok(s) ==> s.primary() == positive && s.penalty() == negative && s.factor()
                == negative_boost,
    {
        if 0 < negative_boost && negative_boost < ONE_BITS {
            Ok(BoostingScorer { positive, negative, negative_boost })
        } else {
            Err(SearchError::PenaltyOutOfRange)
        }
    }
}

/// As an iterator a boosting scorer cannot be told from its primary scorer:
/// it is valid where its children are, it has the primary's model, so it
/// reports the primary's position and cost, and each move takes it where the
/// same move takes the primary.
pub proof fn lemma_iterates_as_primary<P: Scorer, N: Scorer>(s: BoostingScorer<P, N>, target: DocId)
    ensures
        s.wf() ==> s.primary().wf(),
        s.postings() == s.primary().postings(),
        s.postings().doc_id() == s.primary().postings().doc_id(),
        s.postings().cost == s.primary().postings().cost,
        s.postings().on_match() == s.primary().postings().on_match(),
        s.postings().after_next() == s.primary().postings().after_next(),
        s.postings().after_advance(target) == s.primary().postings().after_advance(target),
        s.postings().after_approximate_next() == s.primary().postings().after_approximate_next(),
        s.postings().after_approximate_advance(target)
            == s.primary().postings().after_approximate_advance(target),
{
}

impl<P: Scorer, N: Scorer> DocIterator for BoostingScorer<P, N> {
    open spec fn postings(&self) -> Postings {
        self.primary().postings()
    }

    open spec fn wf(&self) -> bool {
        &&& self.primary().wf()
        &&& self.penalty().wf()
        &&& is_penalty_factor(self.factor())
    }

    /// The children are states of the same scorers, and the factor is the
    /// same.
    open spec fn same_source(&self, later: &Self) -> bool {
        &&& self.primary().same_source(&later.primary())
        &&& self.penalty().same_source(&later.penalty())
        &&& self.factor() == later.factor()
    }

    proof fn lemma_same_source_reflexive(&self) {
        self.positive.lemma_same_source_reflexive();
        self.negative.lemma_same_source_reflexive();
    }

    proof fn lemma_same_source_transitive(&self, mid: &Self, later: &Self) {
        self.positive.lemma_same_source_transitive(&mid.positive, &later.positive);
        self.negative.lemma_same_source_transitive(&mid.negative, &later.negative);
    }

    proof fn lemma_wf_postings(&self) {
        self.positive.lemma_wf_postings();
    }

    fn doc_id(&self) -> (doc: DocId) {
        self.positive.doc_id()
    }

    /// Returns what the primary scorer returns, a failure included, and
    /// leaves the primary as that call left it.
    fn next(&mut self) -> (r: Result<DocId, SearchError>)
        ensures
            final(self).penalty() == old(self).penalty(),
            exists|m: &mut P|
                *m == old(self).primary() && *final(m) == final(self).primary()
                    && #[trigger] call_ensures(<P as DocIterator>::next, (m,), r),
    {
        proof {
            self.negative.lemma_same_source_reflexive();
        }
        self.positive.next()
    }

    /// Returns what the primary scorer returns, a failure included, and
    /// leaves the primary as that call left it.
    fn advance(&mut self, target: DocId) -> (r: Result<DocId, SearchError>)
        ensures
            final(self).penalty() == old(self).penalty(),
            exists|m: &mut P|
                *m == old(self).primary() && *final(m) == final(self).primary()
                    && #[trigger] call_ensures(<P as DocIterator>::advance, (m, target), r),
    {
        proof {
            self.negative.lemma_same_source_reflexive();
        }
        self.positive.advance(target)
    }

    fn cost(&self) -> (c: usize) {
        self.positive.cost()
    }

    /// Returns what the primary scorer returns, a failure included, and
    /// leaves the primary as that call left it.
    fn matches(&mut self) -> (r: Result<bool, SearchError>)
        ensures
            final(self).penalty() == old(self).penalty(),
            exists|m: &mut P|
                *m == old(self).primary() && *final(m) == final(self).primary()
                    && #[trigger] call_ensures(<P as DocIterator>::matches, (m,), r),
    {
        proof {
            self.negative.lemma_same_source_reflexive();
        }
        self.positive.matches()
    }

    /// Returns what the primary scorer returns, a failure included, and
    /// leaves the primary as that call left it.
    fn approximate_next(&mut self) -> (r: Result<DocId, SearchError>)
        ensures
            final(self).penalty() == old(self).penalty(),
            exists|m: &mut P|
                *m == old(self).primary() && *final(m) == final(self).primary()
                    && #[trigger] call_ensures(<P as DocIterator>::approximate_next, (m,), r),
    {
        proof {
            self.negative.lemma_same_source_reflexive();
        }
        self.positive.approximate_next()
    }

    /// Returns what the primary scorer returns, a failure included, and
    /// leaves the primary as that call left it.
    fn approximate_advance(&mut self, target: DocId) -> (r: Result<DocId, SearchError>)
        ensures
            final(self).penalty() == old(self).penalty(),
            exists|m: &mut P|
                *m == old(self).primary() && *final(m) == final(self).primary()
                    && #[trigger] call_ensures(<P as DocIterator>::approximate_advance, (m, target), r),
    {
        proof {
            self.negative.lemma_same_source_reflexive();
        }
        self.positive.approximate_advance(target)
    }
}

impl<P: Scorer, N: Scorer> Scorer for BoostingScorer<P, N> {
    open spec fn spec_score(&self) -> ScoreModel {
        if self.penalty_applies() {
            self.primary().spec_score().penalized_by(self.factor())
        } else {
            self.primary().spec_score()
        }
    }

    /// The primary's score of the current match, with the penalty factor as
    /// one more factor where the penalty scorer matches the same document.
    ///
    /// The primary scorer is asked for its score. Where it fails, that
    /// failure is returned and the penalty scorer is not touched. Else the
    /// penalty scorer is advanced to the primary's position, and where that
    /// fails, its failure is returned.
    ///
    /// The penalty scorer is advanced to the primary's position and no
    /// further, so it never moves backward and never passes a document that
    /// the primary may still reach.
    fn score(&mut self) -> (r: Result<Score, SearchError>)
        ensures
            final(self).primary().postings() == old(self).primary().postings(),
            old(self).penalty().postings().reaches(final(self).penalty().postings()),
            r is Ok ==> final(self).penalty().postings() == old(
                self
            ).penalty().postings().after_advance(old(self).postings().doc_id()),
            exists|m: &mut P, scored: Result<Score, SearchError>|
                {
                    &&& *m == old(self).primary()
                    &&& *final(m) == final(self).primary()
                    &&& #[trigger] call_ensures(<P as Scorer>::score, (m,), scored)
                    &&& match scored {
                        Err(e) => r == Err::<Score, SearchError>(e) && final(self).penalty() == old(
                            self
                        ).penalty(),
                        Ok(raw) => exists|n: &mut N, advanced: Result<DocId, SearchError>|
                            {
                                &&& *n == old(self).penalty()
                                &&& *final(n) == final(self).penalty()
                                &&& #[trigger] call_ensures(
                                    <N as DocIterator>::advance,
                                    (n, old(self).postings().doc_id()),
                                    advanced,
                                )
                                &&& match advanced {
                                    Err(e) => r == Err::<Score, SearchError>(e),
                                    Ok(penalty_doc) => r matches Ok(s) && s@ == if penalty_doc
                                        == old(self).postings().doc_id() {
                                        raw@.penalized_by(old(self).factor())
                                    } else {
                                        raw@
                                    },
                                }
                            },
                    }
                },
    {
        proof {
            self.negative.lemma_wf_postings();
            self.negative.lemma_same_source_reflexive();
            lemma_advance_settles(self.negative.postings(), self.positive.postings().doc_id());
        }
        let current_doc: DocId = self.positive.doc_id();
        let raw = match self.positive.score() {
            Err(e) => {
                return Err(e);
            },
            Ok(raw) => raw,
        };
        let penalty_doc: DocId = match self.negative.advance(current_doc) {
            Err(e) => {
                return Err(e);
            },
            Ok(doc) => doc,
        };
        Ok(penalized_score(raw, current_doc, penalty_doc, self.negative_boost))
    }
}

} // verus!
