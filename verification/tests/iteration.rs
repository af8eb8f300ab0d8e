use rucene::doc_iterator::{confirmed_advance, confirmed_next};
use rucene::postings_scorer::check_docs;
use rucene::{DocIterator, PostingsScorer, Scorer, SearchError, NO_MORE_DOCS};

fn plain(docs: &[u32]) -> PostingsScorer {
    PostingsScorer::new(docs.to_vec(), vec![0; docs.len()]).unwrap()
}

fn two_phase(docs: &[u32], confirmed: &[bool]) -> PostingsScorer {
    PostingsScorer::two_phase(docs.to_vec(), vec![0; docs.len()], confirmed.to_vec()).unwrap()
}

#[test]
fn positions_increase_strictly_up_to_the_end_which_stays() {
    let mut it = two_phase(&[2, 3, 5, 8, 13, 21], &[true, false, true, true, false, true]);
    assert_eq!(it.doc_id(), NO_MORE_DOCS);
    let mut seen = Vec::new();
    loop {
        let doc = it.next().unwrap();
        assert_eq!(it.doc_id(), doc);
        if doc == NO_MORE_DOCS {
            break;
        }
        if let Some(last) = seen.last() {
            assert!(doc > *last);
        }
        seen.push(doc);
    }
    assert_eq!(seen, vec![2, 5, 8, 21]);
    assert_eq!(it.doc_id(), NO_MORE_DOCS);
    assert_eq!(it.next(), Ok(NO_MORE_DOCS));
    assert_eq!(it.advance(4), Ok(NO_MORE_DOCS));
    assert_eq!(it.approximate_next(), Ok(NO_MORE_DOCS));
    assert_eq!(it.approximate_advance(0), Ok(NO_MORE_DOCS));
    assert_eq!(it.doc_id(), NO_MORE_DOCS);
}

#[test]
fn advance_finds_the_first_match_at_or_after_the_target() {
    let docs = [1, 4, 9, 16, 25, 36, 49, 64, 81, 100];
    for target in 0..=101 {
        let mut it = plain(&docs);
        let expected = docs.iter().copied().find(|d| *d >= target).unwrap_or(NO_MORE_DOCS);
        assert_eq!(it.advance(target), Ok(expected), "target {target}");
        assert_eq!(it.doc_id(), expected);
    }
    let mut it = plain(&docs);
    assert_eq!(it.advance(NO_MORE_DOCS), Ok(NO_MORE_DOCS));
}

#[test]
fn advance_from_a_position_looks_only_ahead() {
    let mut it = plain(&[1, 4, 9, 16, 25]);
    assert_eq!(it.advance(5), Ok(9));
    assert_eq!(it.advance(10), Ok(16));
    assert_eq!(it.next(), Ok(25));
    assert_eq!(it.advance(26), Ok(NO_MORE_DOCS));
}

#[test]
fn advance_to_a_target_at_or_before_the_position_changes_nothing() {
    let mut it = two_phase(&[3, 6, 9, 12], &[true, false, true, true]);
    assert_eq!(it.advance(4), Ok(9));
    for target in [0, 3, 6, 8, 9] {
        assert_eq!(it.advance(target), Ok(9));
        assert_eq!(it.approximate_advance(target), Ok(9));
        assert_eq!(it.doc_id(), 9);
    }
    assert_eq!(it.next(), Ok(12));
}

#[test]
fn advance_stays_on_a_candidate_that_is_not_confirmed() {
    let mut it = two_phase(&[3, 6, 9], &[true, false, true]);
    assert_eq!(it.approximate_advance(5), Ok(6));
    assert_eq!(it.matches(), Ok(false));
    assert_eq!(it.advance(6), Ok(6));
    assert_eq!(it.advance(7), Ok(9));
}

#[test]
fn an_iterator_that_has_not_moved_is_moved_by_advance() {
    let mut it = plain(&[3, 6, 9]);
    assert_eq!(it.doc_id(), NO_MORE_DOCS);
    assert_eq!(it.advance(2), Ok(3));
    let mut it = plain(&[3, 6, 9]);
    assert_eq!(it.approximate_advance(7), Ok(9));
}

#[test]
fn the_approximate_moves_visit_every_candidate() {
    let mut it = two_phase(&[2, 3, 5], &[false, true, false]);
    assert_eq!(it.approximate_next(), Ok(2));
    assert_eq!(it.matches(), Ok(false));
    assert_eq!(it.approximate_next(), Ok(3));
    assert_eq!(it.matches(), Ok(true));
    assert_eq!(it.approximate_advance(4), Ok(5));
    assert_eq!(it.matches(), Ok(false));
    assert_eq!(it.approximate_next(), Ok(NO_MORE_DOCS));
}

#[test]
fn the_two_phase_loop_finds_what_next_finds() {
    let docs = [1, 2, 4, 7, 8, 11, 12, 20];
    let confirmed = [false, true, false, false, true, true, false, false];
    let mut by_next = two_phase(&docs, &confirmed);
    let mut by_loop = two_phase(&docs, &confirmed);
    loop {
        let expected = by_next.next().unwrap();
        assert_eq!(confirmed_next(&mut by_loop), Ok(expected));
        assert_eq!(by_loop.doc_id(), expected);
        if expected == NO_MORE_DOCS {
            break;
        }
    }
    assert_eq!(confirmed_next(&mut by_loop), Ok(NO_MORE_DOCS));
}

#[test]
fn the_two_phase_loop_finds_what_advance_finds() {
    let docs = [1, 2, 4, 7, 8, 11, 12, 20];
    let confirmed = [false, true, false, false, true, true, false, false];
    for first in 0..=21 {
        for second in 0..=21 {
            let mut by_advance = two_phase(&docs, &confirmed);
            let mut by_loop = two_phase(&docs, &confirmed);
            for target in [first, second] {
                let expected = by_advance.advance(target).unwrap();
                assert_eq!(confirmed_advance(&mut by_loop, target), Ok(expected));
                assert_eq!(by_loop.doc_id(), expected);
            }
        }
    }
}

#[test]
fn the_two_phase_loop_leaves_an_unconfirmed_position_that_holds() {
    let mut it = two_phase(&[3, 6, 9], &[true, false, true]);
    assert_eq!(it.approximate_advance(5), Ok(6));
    assert_eq!(confirmed_advance(&mut it, 4), Ok(6));
    assert_eq!(confirmed_advance(&mut it, 7), Ok(9));
}

#[test]
fn matches_gives_the_same_answer_twice() {
    let mut it = two_phase(&[2, 3], &[false, true]);
    assert_eq!(it.approximate_next(), Ok(2));
    assert_eq!(it.matches(), Ok(false));
    assert_eq!(it.matches(), Ok(false));
    assert_eq!(it.doc_id(), 2);
    assert_eq!(it.approximate_next(), Ok(3));
    assert_eq!(it.matches(), Ok(true));
    assert_eq!(it.matches(), Ok(true));
    assert_eq!(it.doc_id(), 3);
}

#[test]
fn cost_is_the_number_of_candidates_and_does_not_change() {
    let mut it = two_phase(&[2, 3, 5], &[false, true, false]);
    assert_eq!(it.cost(), 3);
    it.next().unwrap();
    it.next().unwrap();
    assert_eq!(it.cost(), 3);
    assert_eq!(plain(&[]).cost(), 0);
}

#[test]
fn an_empty_list_is_at_its_end_after_the_first_move() {
    let mut it = plain(&[]);
    assert_eq!(it.doc_id(), NO_MORE_DOCS);
    assert_eq!(it.next(), Ok(NO_MORE_DOCS));
    let mut it = plain(&[]);
    assert_eq!(it.advance(0), Ok(NO_MORE_DOCS));
}

#[test]
fn the_score_is_that_of_the_current_match() {
    let mut it =
        PostingsScorer::new(vec![4, 6], vec![1.5f32.to_bits(), 2.5f32.to_bits()]).unwrap();
    assert_eq!(it.next(), Ok(4));
    let score = it.score().unwrap();
    assert_eq!((score.base, score.penalties.len()), (1.5f32.to_bits(), 0));
    assert_eq!(it.score().unwrap().base, 1.5f32.to_bits());
    assert_eq!(it.doc_id(), 4);
    assert_eq!(it.next(), Ok(6));
    assert_eq!(it.score().unwrap().base, 2.5f32.to_bits());
}

#[test]
fn lists_of_different_lengths_are_rejected() {
    assert_eq!(
        PostingsScorer::new(vec![1, 2], vec![0]).err(),
        Some(SearchError::LengthMismatch)
    );
    assert_eq!(
        PostingsScorer::two_phase(vec![1, 2], vec![0, 0], vec![true]).err(),
        Some(SearchError::LengthMismatch)
    );
    assert_eq!(
        PostingsScorer::two_phase(vec![2, 1], vec![0], vec![true, true]).err(),
        Some(SearchError::LengthMismatch)
    );
}

#[test]
fn documents_out_of_order_are_rejected() {
    for docs in [vec![2, 1], vec![1, 1], vec![1, 2, 2], vec![NO_MORE_DOCS], vec![5, NO_MORE_DOCS]] {
        assert!(!check_docs(&docs));
        let scores = vec![0; docs.len()];
        assert_eq!(PostingsScorer::new(docs, scores).err(), Some(SearchError::UnorderedPostings));
    }
    assert!(check_docs(&vec![]));
    assert!(check_docs(&vec![0, 1, NO_MORE_DOCS - 1]));
}
