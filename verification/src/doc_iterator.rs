//! The iteration protocol: a forward-only cursor over matching documents with
//! skipping and two-phase matching.
use crate::error::SearchError;
use crate::postings::{lemma_seek_is_first, lemma_seek_unique, DocId, Postings, NO_MORE_DOCS};
use vstd::prelude::*;

verus! {

/// A forward-only cursor over the documents that match a query node.
///
/// Matching has two phases. The approximate moves walk a superset of the
/// matches cheaply; `matches` confirms the candidate the cursor stands on.
/// `next` and `advance` stop at confirmed matches only. An iterator without an
/// expensive second phase confirms every candidate.
///
/// Every move returns the position it reached, or the failure that stopped
/// it. After a failure the iterator is still valid, walks the same list, and
/// has not moved backward; where it stands is not known.
pub trait DocIterator {
    /// The cursor model that this iterator implements.
    spec fn postings(&self) -> Postings;

    /// The iterator's own state is valid.
    spec fn wf(&self) -> bool;

    /// `later` is a state of the same iterator: the two agree in everything
    /// that no operation changes.
    spec fn same_source(&self, later: &Self) -> bool;

    /// An iterator is a state of itself.
    proof fn lemma_same_source_reflexive(&self)
        ensures
            self.same_source(self),
    ;

    /// A state of a state of an iterator is a state of that iterator.
    proof fn lemma_same_source_transitive(&self, mid: &Self, later: &Self)
        requires
            self.same_source(mid),
            mid.same_source(later),
        ensures
            self.same_source(later),
    ;

    /// A valid iterator has a valid model.
    proof fn lemma_wf_postings(&self)
        requires
            self.wf(),
        ensures
            self.postings().wf(),
    ;

    /// The current position: the document the cursor stands on, or
    /// `NO_MORE_DOCS` before the first move and after the last document.
    fn doc_id(&self) -> (doc: DocId)
        requires
            self.wf(),
        ensures
            doc == self.postings().doc_id(),
    ;

    /// Moves to the first confirmed match after the current position.
    fn next(&mut self) -> (r: Result<DocId, SearchError>)
        requires
            old(self).wf(),
        ensures
            final(self).wf(),
            old(self).same_source(final(self)),
            old(self).postings().reaches(final(self).postings()),
            r matches Ok(doc) ==> final(self).postings() == old(self).postings().after_next()
                && doc == final(self).postings().doc_id(),
    ;

    /// Moves to the first confirmed match at or after `target`. Where the
    /// iterator has been moved before and already reports `target` or more,
    /// it stays where it is and returns its position.
    fn advance(&mut self, target: DocId) -> (r: Result<DocId, SearchError>)
        requires
            old(self).wf(),
        ensures
            final(self).wf(),
            old(self).same_source(final(self)),
            old(self).postings().reaches(final(self).postings()),
            r matches Ok(doc) ==> final(self).postings() == old(self).postings().after_advance(
                target,
            ) && doc == final(self).postings().doc_id(),
            old(self).postings().holds_for(target) ==> final(self).postings() == old(
                self
            ).postings() && r == Ok::<DocId, SearchError>(old(self).postings().doc_id()),
    ;

    /// An upper bound on the number of matches, fixed for the iterator's
    /// lifetime. Does not move the cursor.
    fn cost(&self) -> (c: usize)
        requires
            self.wf(),
        ensures
            c == self.postings().cost,
    ;

    /// Confirms the candidate the cursor stands on. Does not move the cursor.
    fn matches(&mut self) -> (r: Result<bool, SearchError>)
        requires
            old(self).wf(),
            old(self).postings().positioned(),
        ensures
            final(self).wf(),
            old(self).same_source(final(self)),
            final(self).postings() == old(self).postings(),
            r matches Ok(confirmed) ==> confirmed == old(self).postings().on_match(),
    ;

    /// Moves to the candidate after the current one, confirmed or not.
    fn approximate_next(&mut self) -> (r: Result<DocId, SearchError>)
        requires
            old(self).wf(),
        ensures
            final(self).wf(),
            old(self).same_source(final(self)),
            old(self).postings().reaches(final(self).postings()),
            r matches Ok(doc) ==> final(self).postings() == old(
                self
            ).postings().after_approximate_next() && doc == final(self).postings().doc_id(),
    ;

    /// Moves to the first candidate at or after `target`, confirmed or not.
    /// Stays where `advance` would stay.
    fn approximate_advance(&mut self, target: DocId) -> (r: Result<DocId, SearchError>)
        requires
            old(self).wf(),
        ensures
            final(self).wf(),
            old(self).same_source(final(self)),
            old(self).postings().reaches(final(self).postings()),
            r matches Ok(doc) ==> final(self).postings() == old(
                self
            ).postings().after_approximate_advance(target) && doc == final(
                self
            ).postings().doc_id(),
            old(self).postings().holds_for(target) ==> final(self).postings() == old(
                self
            ).postings() && r == Ok::<DocId, SearchError>(old(self).postings().doc_id()),
    ;
}

/// Finds the next confirmed match by the two-phase loop: move to the
/// following candidate, confirm it, and go on while confirmation fails.
///
/// The loop reaches the state that `next` reaches, so an iterator with a
/// second phase can take this as its `next`. It fails only where a move or a
/// confirmation of the iterator fails, with that failure, and leaves the
/// iterator as the failed call left it.
pub fn confirmed_next<I: DocIterator>(it: &mut I) -> (r: Result<DocId, SearchError>)
    requires
        old(it).wf(),
    ensures
        final(it).wf(),
        old(it).same_source(final(it)),
        old(it).postings().reaches(final(it).postings()),
        r matches Ok(doc) ==> final(it).postings() == old(it).postings().after_next() && doc
            == final(it).postings().doc_id(),
        r matches Err(e) ==> (exists|m: &mut I|
            {
                &&& old(it).postings().reaches((*m).postings())
                &&& *final(m) == *final(it)
                &&& #[trigger] call_ensures(
                    <I as DocIterator>::approximate_next,
                    (m,),
                    Err::<DocId, SearchError>(e),
                )
            }) || (exists|m: &mut I|
            {
                &&& old(it).postings().reaches((*m).postings())
                &&& *final(m) == *final(it)
                &&& #[trigger] call_ensures(
                    <I as DocIterator>::matches,
                    (m,),
                    Err::<bool, SearchError>(e),
                )
            }),
{
    let ghost start = it.postings();
    proof {
        it.lemma_wf_postings();
        it.lemma_same_source_reflexive();
    }
    loop
        invariant
            it.wf(),
            start.wf(),
            start == old(it).postings(),
            start.reaches(it.postings()),
            old(it).same_source(it),
            forall|j: int|
                start.cursor < j <= it.postings().cursor ==> !#[trigger] start.eligible(j, 0, true),
        decreases start.docs.len() - it.postings().cursor,
    {
        proof {
            it.lemma_wf_postings();
        }
        let ghost before = *it;
        let moved = it.approximate_next();
        proof {
            old(it).lemma_same_source_transitive(&before, it);
        }
        match moved {
            Err(e) => {
                return Err(e);
            },
            Ok(doc) => {
                proof {
                    it.lemma_wf_postings();
                }
                if doc == NO_MORE_DOCS {
                    proof {
                        lemma_seek_unique(
                            start,
                            start.cursor + 1,
                            0,
                            true,
                            start.docs.len() as int,
                        );
                        assert(it.postings() == start.after_next());
                    }
                    return Ok(doc);
                }
                let ghost unconfirmed = *it;
                let answer = it.matches();
                proof {
                    old(it).lemma_same_source_transitive(&unconfirmed, it);
                }
                match answer {
                    Err(e) => {
                        return Err(e);
                    },
                    Ok(confirmed) => {
                        if confirmed {
                            proof {
                                lemma_seek_unique(
                                    start,
                                    start.cursor + 1,
                                    0,
                                    true,
                                    it.postings().cursor,
                                );
                                assert(it.postings() == start.after_next());
                            }
                            return Ok(doc);
                        }
                    },
                }
            },
        }
    }
}

/// Finds the first confirmed match at or after `target` by the two-phase
/// loop: skip to the first candidate at or after `target`, confirm it, and
/// step through the candidates while confirmation fails.
///
/// The loop reaches the state that `advance` reaches, and leaves the iterator
/// alone where `advance` does. It fails only where a move or a confirmation
/// of the iterator fails, with that failure, and leaves the iterator as the
/// failed call left it.
pub fn confirmed_advance<I: DocIterator>(it: &mut I, target: DocId) -> (r: Result<
    DocId,
    SearchError,
>)
    requires
        old(it).wf(),
    ensures
        final(it).wf(),
        old(it).same_source(final(it)),
        old(it).postings().reaches(final(it).postings()),
        r matches Ok(doc) ==> final(it).postings() == old(it).postings().after_advance(target)
            && doc == final(it).postings().doc_id(),
        old(it).postings().holds_for(target) ==> final(it).postings() == old(it).postings() && r
            == Ok::<DocId, SearchError>(old(it).postings().doc_id()),
        r matches Err(e) ==> (exists|m: &mut I|
            {
                &&& *m == *old(it)
                &&& *final(m) == *final(it)
                &&& #[trigger] call_ensures(
                    <I as DocIterator>::approximate_advance,
                    (m, target),
                    Err::<DocId, SearchError>(e),
                )
            }) || (exists|m: &mut I|
            {
                &&& old(it).postings().reaches((*m).postings())
                &&& *final(m) == *final(it)
                &&& #[trigger] call_ensures(
                    <I as DocIterator>::approximate_next,
                    (m,),
                    Err::<DocId, SearchError>(e),
                )
            }) || (exists|m: &mut I|
            {
                &&& old(it).postings().reaches((*m).postings())
                &&& *final(m) == *final(it)
                &&& #[trigger] call_ensures(
                    <I as DocIterator>::matches,
                    (m,),
                    Err::<bool, SearchError>(e),
                )
            }),
{
    let ghost start = it.postings();
    proof {
        it.lemma_wf_postings();
        it.lemma_same_source_reflexive();
    }
    let current: DocId = it.doc_id();
    if current != NO_MORE_DOCS && target <= current {
        return Ok(current);
    }
    let mut doc: DocId = match it.approximate_advance(target) {
        Err(e) => {
            return Err(e);
        },
        Ok(doc) => doc,
    };
    proof {
        it.lemma_wf_postings();
        lemma_seek_is_first(start, start.cursor + 1, target, false);
        assert forall|j: int|
            start.cursor < j < it.postings().cursor implies !#[trigger] start.eligible(
            j,
            target,
            true,
        ) by {
            assert(!start.eligible(j, target, false));
        }
    }
    loop
        invariant
            it.wf(),
            start.wf(),
            start == old(it).postings(),
            start.reaches(it.postings()),
            old(it).same_source(it),
            doc == it.postings().doc_id(),
            start.holds_for(target) ==> it.postings() == start && doc == NO_MORE_DOCS,
            !start.holds_for(target) ==> start.cursor < it.postings().cursor,
            it.postings().positioned() ==> doc >= target,
            forall|j: int|
                start.cursor < j < it.postings().cursor ==> !#[trigger] start.eligible(
                    j,
                    target,
                    true,
                ),
        decreases start.docs.len() - it.postings().cursor,
    {
        proof {
            it.lemma_wf_postings();
        }
        if doc == NO_MORE_DOCS {
            proof {
                if !start.holds_for(target) {
                    lemma_seek_unique(
                        start,
                        start.cursor + 1,
                        target,
                        true,
                        start.docs.len() as int,
                    );
                }
            }
            return Ok(doc);
        }
        let ghost unconfirmed = *it;
        let answer = it.matches();
        proof {
            old(it).lemma_same_source_transitive(&unconfirmed, it);
        }
        match answer {
            Err(e) => {
                return Err(e);
            },
            Ok(confirmed) => {
                if confirmed {
                    proof {
                        lemma_seek_unique(
                            start,
                            start.cursor + 1,
                            target,
                            true,
                            it.postings().cursor,
                        );
                    }
                    return Ok(doc);
                }
            },
        }
        let ghost before = *it;
        let moved = it.approximate_next();
        proof {
            old(it).lemma_same_source_transitive(&before, it);
        }
        match moved {
            Err(e) => {
                return Err(e);
            },
            Ok(following) => {
                doc = following;
            },
        }
    }
}

} // verus!
