//! A scorer over a posting list held in memory.
use crate::doc_iterator::DocIterator;
use crate::error::SearchError;
use crate::postings::{
    lemma_confirmed_count_bound, lemma_seek_unique, valid_docs, DocId, Postings, NO_MORE_DOCS,
};
use crate::score::{Score, ScoreModel};
use crate::scorer::Scorer;
use vstd::prelude::*;

verus! {

/// A scorer over a posting list held in memory: the candidate documents in
/// increasing order, and for each its score and whether it is a confirmed
/// match.
///
/// It never fails. Skipping is by binary search.
pub struct PostingsScorer {
    docs: Vec<DocId>,
    scores: Vec<u32>,
    confirmed: Vec<bool>,
    started: bool,
    index: usize,
}

/// Whether `docs` is strictly increasing and free of `NO_MORE_DOCS`.
pub fn check_docs(docs: &Vec<DocId>) -> (valid: bool)
    ensures
        valid == valid_docs(docs@),
{
    let mut i: usize = 0;
    while i < docs.len()
        invariant
            i <= docs.len(),
            valid_docs(docs@.take(i as int)),
        decreases docs.len() - i,
    {
        if docs[i] == NO_MORE_DOCS || (i > 0 && docs[i - 1] >= docs[i]) {
            return false;
        }
        proof {
            let shorter = docs@.take(i as int);
            let longer = docs@.take(i + 1);
            assert forall|a: int, b: int| 0 <= a < b < longer.len() implies #[trigger] longer[a]
                < #[trigger] longer[b] by {
                if b < i {
                    assert(shorter[a] < shorter[b]);
                } else if a < i - 1 {
                    assert(shorter[a] < shorter[i - 1]);
                }
            }
        }
        i += 1;
    }
    proof {
        assert(docs@.take(i as int) == docs@);
    }
    true
}

impl PostingsScorer {
    /// The score bit pattern of each candidate.
    pub closed spec fn scores(&self) -> Seq<u32> {
        self.scores@
    }

    /// A scorer over `docs` in which every candidate is a confirmed match and
    /// `scores[i]` is the score of `docs[i]`.
    ///
    /// Fails with `LengthMismatch` where the two lists differ in length, and
    /// otherwise with `UnorderedPostings` where `docs` is not strictly
    /// increasing or holds `NO_MORE_DOCS`.
    pub fn new(docs: Vec<DocId>, scores: Vec<u32>) -> (r: Result<PostingsScorer, SearchError>)
        ensures
            match r {
                Ok(s) => {
                    &&& scores.len() == docs.len()
                    &&& valid_docs(docs@)
                    &&& s.wf()
                    &&& s.postings() == Postings {
                        docs: docs@,
                        confirmed: Seq::new(docs.len() as nat, |i: int| true),
                        cost: docs.len() as nat,
                        cursor: -1,
                    }
                    &&& s.scores() == scores@
                },
                Err(e) => if scores.len() != docs.len() {
                    e == SearchError::LengthMismatch
                } else {
                    e == SearchError::UnorderedPostings && !valid_docs(docs@)
                },
            },
    {
        let mut confirmed: Vec<bool> = Vec::new();
        let mut i: usize = 0;
        while i < docs.len()
            invariant
                i <= docs.len(),
                confirmed@ == Seq::new(i as nat, |k: int| true),
            decreases docs.len() - i,
        {
            confirmed.push(true);
            i += 1;
        }
        PostingsScorer::two_phase(docs, scores, confirmed)
    }

    /// A scorer over `docs` in which `docs[i]` has the score `scores[i]` and
    /// is a confirmed match where `confirmed[i]` is set. The other candidates
    /// are visited by the approximate moves only.
    ///
    /// Fails with `LengthMismatch` where the three lists differ in length,
    /// and otherwise with `UnorderedPostings` where `docs` is not strictly
    /// increasing or holds `NO_MORE_DOCS`.
    pub fn two_phase(docs: Vec<DocId>, scores: Vec<u32>, confirmed: Vec<bool>) -> (r: Result<
        PostingsScorer,
        SearchError,
    >)
        ensures
            match r {
                Ok(s) => {
                    &&& scores.len() == docs.len()
                    &&& confirmed.len() == docs.len()
                    &&& valid_docs(docs@)
                    &&& s.wf()
                    &&& s.postings() == Postings {
                        docs: docs@,
                        confirmed: confirmed@,
                        cost: docs.len() as nat,
                        cursor: -1,
                    }
                    &&& s.scores() == scores@
                },
                Err(e) => if scores.len() != docs.len() || confirmed.len() != docs.len() {
                    e == SearchError::LengthMismatch
                } else {
                    e == SearchError::UnorderedPostings && !valid_docs(docs@)
                },
            },
    {
        if scores.len() != docs.len() || confirmed.len() != docs.len() {
            return Err(SearchError::LengthMismatch);
        }
        if !check_docs(&docs) {
            return Err(SearchError::UnorderedPostings);
        }
        proof {
            lemma_confirmed_count_bound(confirmed@);
        }
        Ok(PostingsScorer { docs, scores, confirmed, started: false, index: 0 })
    }

    /// Index of the candidate after the current one.
    fn following(&self) -> (from: usize)
        requires
            self.wf(),
            !self.postings().exhausted(),
        ensures
            from == self.postings().cursor + 1,
    {
        if self.started {
            assert(self.index < self.docs.len());
            self.index + 1
        } else {
            0
        }
    }

    /// Whether a move to `target` leaves the cursor where it is.
    fn stays_for(&self, target: DocId) -> (stays: bool)
        requires
            self.wf(),
        ensures
            stays == self.postings().holds_for(target),
            !stays ==> !self.postings().exhausted(),
    {
        self.started && (self.index >= self.docs.len() || target <= self.docs[self.index])
    }

    /// Index of the first candidate at or after `target` among those at index
    /// `from` and after, by binary search.
    fn lower_bound(&self, from: usize, target: DocId) -> (i: usize)
        requires
            self.wf(),
            from <= self.docs.len(),
        ensures
            i == self.postings().seek(from as int, target, false),
            from <= i <= self.docs.len(),
    {
        let mut lo: usize = from;
        let mut hi: usize = self.docs.len();
        while lo < hi
            invariant
                self.wf(),
                from <= lo <= hi <= self.docs.len(),
                forall|j: int| from <= j < lo ==> self.docs[j] < target,
                forall|j: int| hi <= j < self.docs.len() ==> self.docs[j] >= target,
            decreases hi - lo,
        {
            let mid: usize = lo + (hi - lo) / 2;
            if self.docs[mid] < target {
                lo = mid + 1;
            } else {
                hi = mid;
            }
        }
        proof {
            lemma_seek_unique(self.postings(), from as int, target, false, lo as int);
        }
        lo
    }

    /// Index of the first confirmed match among the candidates at index
    /// `from` and after.
    fn first_confirmed(&self, from: usize) -> (i: usize)
        requires
            self.wf(),
            from <= self.docs.len(),
        ensures
            from <= i <= self.docs.len(),
            i < self.docs.len() ==> self.confirmed@[i as int],
            forall|j: int| from <= j < i ==> !self.confirmed@[j],
    {
        let mut i: usize = from;
        while i < self.docs.len() && !self.confirmed[i]
            invariant
                self.wf(),
                from <= i <= self.docs.len(),
                forall|j: int| from <= j < i ==> !self.confirmed@[j],
            decreases self.docs.len() - i,
        {
            i += 1;
        }
        i
    }

    /// The document at index `i`, or `NO_MORE_DOCS` past the end.
    fn doc_at(&self, i: usize) -> (doc: DocId)
        requires
            self.wf(),
        ensures
            doc == self.postings().at(i as int).doc_id(),
    {
        if i < self.docs.len() {
            self.docs[i]
        } else {
            NO_MORE_DOCS
        }
    }
}

impl DocIterator for PostingsScorer {
    closed spec fn postings(&self) -> Postings {
        Postings {
            docs: self.docs@,
            confirmed: self.confirmed@,
            cost: self.docs@.len(),
            cursor: if self.started {
                self.index as int
            } else {
                -1
            },
        }
    }

    closed spec fn wf(&self) -> bool {
        &&& self.scores@.len() == self.docs@.len()
        &&& self.postings().wf()
        &&& !self.started ==> self.index == 0
    }

    /// The scores are the same.
    open spec fn same_source(&self, later: &Self) -> bool {
        later.scores() == self.scores()
    }

    proof fn lemma_same_source_reflexive(&self) {
    }

    proof fn lemma_same_source_transitive(&self, mid: &Self, later: &Self) {
    }

    proof fn lemma_wf_postings(&self) {
    }

    fn doc_id(&self) -> (doc: DocId) {
        if self.started {
            self.doc_at(self.index)
        } else {
            NO_MORE_DOCS
        }
    }

    fn next(&mut self) -> (r: Result<DocId, SearchError>)
        ensures
            r is Ok,
    {
        if self.started && self.index >= self.docs.len() {
            return Ok(NO_MORE_DOCS);
        }
        let from: usize = self.following();
        let i: usize = self.first_confirmed(from);
        proof {
            lemma_seek_unique(self.postings(), from as int, 0, true, i as int);
        }
        self.started = true;
        self.index = i;
        Ok(self.doc_at(i))
    }

    fn advance(&mut self, target: DocId) -> (r: Result<DocId, SearchError>)
        ensures
            r is Ok,
    {
        if self.stays_for(target) {
            return Ok(self.doc_id());
        }
        let from: usize = self.following();
        let candidate: usize = self.lower_bound(from, target);
        let i: usize = self.first_confirmed(candidate);
        proof {
            let p = self.postings();
            crate::postings::lemma_seek_is_first(p, from as int, target, false);
            assert forall|j: int| from <= j < i implies !#[trigger] p.eligible(j, target, true) by {
                if j < candidate {
                    assert(!p.eligible(j, target, false));
                }
            }
            lemma_seek_unique(p, from as int, target, true, i as int);
        }
        self.started = true;
        self.index = i;
        Ok(self.doc_at(i))
    }

    fn cost(&self) -> (c: usize) {
        self.docs.len()
    }

    fn matches(&mut self) -> (r: Result<bool, SearchError>)
        ensures
            r is Ok,
    {
        Ok(self.confirmed[self.index])
    }

    fn approximate_next(&mut self) -> (r: Result<DocId, SearchError>)
        ensures
            r is Ok,
    {
        if self.started && self.index >= self.docs.len() {
            return Ok(NO_MORE_DOCS);
        }
        let i: usize = self.following();
        self.started = true;
        self.index = i;
        Ok(self.doc_at(i))
    }

    fn approximate_advance(&mut self, target: DocId) -> (r: Result<DocId, SearchError>)
        ensures
            r is Ok,
    {
        if self.stays_for(target) {
            return Ok(self.doc_id());
        }
        let from: usize = self.following();
        let i: usize = self.lower_bound(from, target);
        self.started = true;
        self.index = i;
        Ok(self.doc_at(i))
    }
}

impl Scorer for PostingsScorer {
    /// The score of the candidate the cursor stands on, without penalties.
    open spec fn spec_score(&self) -> ScoreModel {
        ScoreModel::plain(self.scores()[self.postings().cursor])
    }

    fn score(&mut self) -> (r: Result<Score, SearchError>)
        ensures
            r is Ok,
    {
        Ok(Score::new(self.scores[self.index]))
    }
}

} // verus!
