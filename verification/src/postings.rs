//! The mathematical model of a document cursor.
//!
//! A cursor walks a fixed list of candidate documents. Some candidates are
//! confirmed matches, the others only look like matches until they are
//! examined. Every operation of the iteration protocol is a function on this
//! model, and the executable iterators are specified against it.
use vstd::prelude::*;

verus! {

/// Identifier of a document within one index segment.
pub type DocId = u32;

/// The position reported by a cursor that stands on no document: greater than
/// every identifier a document can have.
pub const NO_MORE_DOCS: DocId = 0xffff_ffff;

/// Number of flags that are set.
pub open spec fn confirmed_count(flags: Seq<bool>) -> nat
    decreases flags.len(),
{
    if flags.len() == 0 {
        0
    } else if flags.last() {
        1 + confirmed_count(flags.drop_last())
    } else {
        confirmed_count(flags.drop_last())
    }
}

/// No more flags are set than there are flags.
pub proof fn lemma_confirmed_count_bound(flags: Seq<bool>)
    ensures
        confirmed_count(flags) <= flags.len(),
    decreases flags.len(),
{
    if flags.len() > 0 {
        lemma_confirmed_count_bound(flags.drop_last());
    }
}

/// `docs` can be the candidates of a cursor: strictly increasing document
/// identifiers, none of them `NO_MORE_DOCS`.
pub open spec fn valid_docs(docs: Seq<DocId>) -> bool {
    &&& forall|i: int| 0 <= i < docs.len() ==> #[trigger] docs[i] < NO_MORE_DOCS
    &&& forall|i: int, j: int| 0 <= i < j < docs.len() ==> #[trigger] docs[i] < #[trigger] docs[j]
}

/// Abstract state of a document cursor.
pub struct Postings {
    /// The candidate documents, in increasing order.
    pub docs: Seq<DocId>,
    /// For each candidate, whether it is a confirmed match.
    pub confirmed: Seq<bool>,
    /// Upper bound on the number of confirmed matches.
    pub cost: nat,
    /// Index of the candidate the cursor stands on: `-1` before the first
    /// move, `docs.len()` once the candidates are used up.
    pub cursor: int,
}

impl Postings {
    /// The candidates are strictly increasing document identifiers, each has a
    /// confirmation flag, the cost bounds the confirmed ones, and the cursor
    /// is within its range.
    pub open spec fn wf(self) -> bool {
        &&& self.confirmed.len() == self.docs.len()
        &&& valid_docs(self.docs)
        &&& confirmed_count(self.confirmed) <= self.cost
        &&& -1 <= self.cursor <= self.docs.len()
    }

    /// The cursor has not been moved yet.
    pub open spec fn unstarted(self) -> bool {
        self.cursor < 0
    }

    /// The cursor stands on a candidate.
    pub open spec fn positioned(self) -> bool {
        0 <= self.cursor < self.docs.len()
    }

    /// The candidates are used up.
    pub open spec fn exhausted(self) -> bool {
        self.cursor >= self.docs.len()
    }

    /// The cursor stands on a confirmed match.
    pub open spec fn on_match(self) -> bool {
        self.positioned() && self.confirmed[self.cursor]
    }

    /// The position the cursor reports.
    pub open spec fn doc_id(self) -> DocId {
        if self.positioned() {
            self.docs[self.cursor]
        } else {
            NO_MORE_DOCS
        }
    }

    /// The same model with the cursor at `cursor`.
    pub open spec fn at(self, cursor: int) -> Postings {
        Postings { cursor, ..self }
    }

    /// Both models walk the same candidates with the same confirmations and cost.
    pub open spec fn same_list(self, other: Postings) -> bool {
        &&& self.docs == other.docs
        &&& self.confirmed == other.confirmed
        &&& self.cost == other.cost
    }

    /// `later` is a state of the same list that a cursor in this state can
    /// come to: it walks the same candidates and is not behind.
    pub open spec fn reaches(self, later: Postings) -> bool {
        self.same_list(later) && self.cursor <= later.cursor
    }

    /// Candidate `i` is at or after `target` and, where `confirm` is set, a
    /// confirmed match.
    pub open spec fn eligible(self, i: int, target: DocId, confirm: bool) -> bool {
        &&& 0 <= i < self.docs.len()
        &&& self.docs[i] >= target
        &&& confirm ==> self.confirmed[i]
    }

    /// Index of the first eligible candidate at index `from` or after, or
    /// `docs.len()` where there is none.
    pub open spec fn seek(self, from: int, target: DocId, confirm: bool) -> int
        decreases self.docs.len() - from,
    {
        if from >= self.docs.len() {
            self.docs.len() as int
        } else if self.eligible(from, target, confirm) {
            from
        } else {
            self.seek(from + 1, target, confirm)
        }
    }

    /// The model after `next`: the cursor on the first confirmed match after
    /// the current candidate.
    pub open spec fn after_next(self) -> Postings {
        self.at(self.seek(self.cursor + 1, 0, true))
    }

    /// The model after `approximate_next`: the cursor on the following candidate.
    pub open spec fn after_approximate_next(self) -> Postings {
        self.at(self.seek(self.cursor + 1, 0, false))
    }

    /// A move to `target` leaves the cursor where it is: it has been moved
    /// before and already reports a position at or after `target`.
    pub open spec fn holds_for(self, target: DocId) -> bool {
        !self.unstarted() && target <= self.doc_id()
    }

    /// The model after `advance(target)`: unchanged where the cursor already
    /// reports `target` or more, else on the first confirmed match at or after
    /// `target` that follows the current candidate.
    pub open spec fn after_advance(self, target: DocId) -> Postings {
        if self.holds_for(target) {
            self
        } else {
            self.at(self.seek(self.cursor + 1, target, true))
        }
    }

    /// The model after `approximate_advance(target)`: as for `advance`, but on
    /// the first candidate at or after `target`, confirmed or not.
    pub open spec fn after_approximate_advance(self, target: DocId) -> Postings {
        if self.holds_for(target) {
            self
        } else {
            self.at(self.seek(self.cursor + 1, target, false))
        }
    }
}

/// `seek` returns the least eligible index at or after `from`, or the length.
pub proof fn lemma_seek_is_first(p: Postings, from: int, target: DocId, confirm: bool)
    requires
        0 <= from,
    ensures
        from <= p.seek(from, target, confirm) || p.seek(from, target, confirm) == p.docs.len(),
        p.seek(from, target, confirm) <= p.docs.len(),
        p.seek(from, target, confirm) < p.docs.len() ==> p.eligible(
            p.seek(from, target, confirm),
            target,
            confirm,
        ),
        forall|j: int|
            from <= j < p.seek(from, target, confirm) ==> !#[trigger] p.eligible(
                j,
                target,
                confirm,
            ),
    decreases p.docs.len() - from,
{
    if from < p.docs.len() && !p.eligible(from, target, confirm) {
        lemma_seek_is_first(p, from + 1, target, confirm);
    }
}

/// An index that is eligible or the length, with no eligible index between
/// `from` and it, is what `seek` returns.
pub proof fn lemma_seek_unique(p: Postings, from: int, target: DocId, confirm: bool, i: int)
    requires
        0 <= from,
        from <= i <= p.docs.len() || i == p.docs.len(),
        i < p.docs.len() ==> p.eligible(i, target, confirm),
        forall|j: int| from <= j < i ==> !#[trigger] p.eligible(j, target, confirm),
    ensures
        p.seek(from, target, confirm) == i,
    decreases i - from,
{
    if from < i {
        assert(!p.eligible(from, target, confirm));
        lemma_seek_unique(p, from + 1, target, confirm, i);
    }
}

/// `next` moves forward: from a document to a greater one or to the end, and
/// never away from the end. Together with `lemma_exhausted_stays`: the
/// positions that successive moves report increase strictly until
/// `NO_MORE_DOCS`, which is then reported for good.
pub proof fn lemma_next_increases(p: Postings)
    requires
        p.wf(),
    ensures
        p.after_next().wf(),
        p.reaches(p.after_next()),
        !p.after_next().unstarted(),
        p.after_next().exhausted() || p.after_next().on_match(),
        p.positioned() ==> p.after_next().doc_id() > p.doc_id(),
        p.exhausted() ==> p.after_next() == p,
{
    lemma_seek_is_first(p, p.cursor + 1, 0, true);
}

/// `advance(target)` moves forward to `target` or beyond: a cursor that it
/// moves reports a greater position than before, and a cursor that has been
/// moved before and already reports `target` or more is left as it is.
pub proof fn lemma_advance_increases(p: Postings, target: DocId)
    requires
        p.wf(),
    ensures
        p.after_advance(target).wf(),
        p.reaches(p.after_advance(target)),
        p.after_advance(target).doc_id() >= target,
        p.positioned() && target > p.doc_id() ==> p.after_advance(target).doc_id() > p.doc_id(),
        !p.unstarted() && target <= p.doc_id() ==> p.after_advance(target) == p,
{
    lemma_seek_is_first(p, p.cursor + 1, target, true);
}

/// Once a cursor reports `NO_MORE_DOCS` after a move, it does so in every
/// state it can come to.
pub proof fn lemma_exhausted_stays(p: Postings, later: Postings)
    requires
        p.wf(),
        later.wf(),
        !p.unstarted(),
        p.doc_id() == NO_MORE_DOCS,
        p.reaches(later),
    ensures
        later.exhausted(),
        later.doc_id() == NO_MORE_DOCS,
{
}

/// The state that the two-phase loop reaches: move to the following
/// candidate, and go on while the candidate is there and is not confirmed.
pub open spec fn next_confirmed(p: Postings) -> Postings
    decreases p.docs.len() - p.cursor,
{
    let following = p.after_approximate_next();
    if following.on_match() || following.cursor <= p.cursor || !following.positioned() {
        following
    } else {
        next_confirmed(following)
    }
}

/// Stepping through the candidates and confirming each finds the match that
/// `next` finds, or the end as `next` does.
pub proof fn lemma_two_phase_loop_is_next(p: Postings)
    requires
        p.wf(),
    ensures
        next_confirmed(p) == p.after_next(),
    decreases p.docs.len() - p.cursor,
{
    let following = p.after_approximate_next();
    lemma_seek_is_first(p, p.cursor + 1, 0, false);
    lemma_seek_is_first(p, p.cursor + 1, 0, true);
    if following.on_match() || !following.positioned() {
        lemma_seek_unique(p, p.cursor + 1, 0, true, following.cursor);
    } else {
        let reached = p.seek(p.cursor + 1, 0, true);
        assert(following.cursor == p.cursor + 1);
        assert(reached > following.cursor) by {
            if reached <= following.cursor {
                assert(p.eligible(reached, 0, true));
            }
        }
        assert forall|j: int|
            following.cursor + 1 <= j < reached implies !#[trigger] following.eligible(
            j,
            0,
            true,
        ) by {
            assert(!p.eligible(j, 0, true));
        }
        lemma_seek_unique(following, following.cursor + 1, 0, true, reached);
        lemma_two_phase_loop_is_next(following);
    }
}

/// The state that repeated `next` reaches when it stops at the first position
/// at or after `target`.
pub open spec fn next_until(p: Postings, target: DocId) -> Postings
    decreases p.docs.len() - p.cursor,
{
    let following = p.after_next();
    if following.doc_id() >= target || following.cursor <= p.cursor {
        following
    } else {
        next_until(following, target)
    }
}

/// Where `advance(target)` moves the cursor, it takes it where repeated
/// `next` takes it: to the first match at or after `target`.
pub proof fn lemma_advance_is_repeated_next(p: Postings, target: DocId)
    requires
        p.wf(),
        !p.holds_for(target),
    ensures
        p.after_advance(target) == next_until(p, target),
    decreases p.docs.len() - p.cursor,
{
    let following = p.after_next();
    lemma_seek_is_first(p, p.cursor + 1, 0, true);
    lemma_seek_is_first(p, p.cursor + 1, target, true);
    let reached = p.seek(p.cursor + 1, target, true);
    if following.doc_id() >= target {
        assert forall|j: int| p.cursor + 1 <= j < following.cursor implies !#[trigger] p.eligible(
            j,
            target,
            true,
        ) by {
            assert(!p.eligible(j, 0, true));
        }
        lemma_seek_unique(p, p.cursor + 1, target, true, following.cursor);
    } else {
        assert(following.positioned());
        assert forall|j: int|
            following.cursor + 1 <= j < reached implies !#[trigger] following.eligible(
            j,
            target,
            true,
        ) by {
            assert(!p.eligible(j, target, true));
        }
        assert(reached > following.cursor) by {
            if reached <= following.cursor {
                assert(p.eligible(reached, 0, true));
            }
        }
        lemma_seek_unique(following, following.cursor + 1, target, true, reached);
        lemma_advance_is_repeated_next(following, target);
    }
}

/// After `advance(target)` the cursor has been moved, reports `target` or
/// more, and a second `advance(target)` leaves it where it is.
pub proof fn lemma_advance_settles(p: Postings, target: DocId)
    requires
        p.wf(),
    ensures
        p.after_advance(target).wf(),
        p.reaches(p.after_advance(target)),
        p.after_advance(target).holds_for(target),
        p.after_advance(target).after_advance(target) == p.after_advance(target),
{
    lemma_seek_is_first(p, p.cursor + 1, target, true);
}

} // verus!
