use fully_peekable::FullyPeekableIterator;
use fully_peekable::IntoFullyPeekableIterator;
use fully_peekable::UnhintedVecSource;
use fully_peekable::VecSource;

#[test]
fn order_is_preserved_under_interleaved_peeking() {
    let mut peekable = VecSource::new(vec![10, 20, 30]).fully_peekable();
    assert_eq!(peekable.lift(2), Some(&30));
    assert_eq!(peekable.next(), Some(10));
    assert_eq!(peekable.peek_many(5).len(), 5);
    assert_eq!(peekable.has_next(), true);
    assert_eq!(peekable.next(), Some(20));
    assert_eq!(peekable.next_if(|v| *v == 99), None);
    assert_eq!(peekable.next(), Some(30));
    assert_eq!(peekable.next(), None);
}

#[test]
fn peeking_repeatedly_returns_the_same_value() {
    let mut peekable = VecSource::new(vec![4, 5, 6]).fully_peekable();
    assert_eq!(peekable.lift(1), Some(&5));
    assert_eq!(peekable.lift(1), Some(&5));
    assert_eq!(peekable.lift(1), Some(&5));
    assert_eq!(peekable.peek(), Some(&4));
    assert_eq!(peekable.peek(), Some(&4));
    assert_eq!(peekable.lift(9), None);
    assert_eq!(peekable.lift(9), None);
    assert_eq!(peekable.next(), Some(4));
}

#[test]
fn a_rejected_next_if_leaves_the_sequence_intact() {
    let mut peekable = VecSource::new(vec![7, 8]).fully_peekable();
    assert_eq!(peekable.next_if(|v| *v > 100), None);
    assert_eq!(peekable.next(), Some(7));
    assert_eq!(peekable.next_if(|v| *v > 100), None);
    assert_eq!(peekable.next(), Some(8));
    assert_eq!(peekable.next(), None);
}

#[test]
fn the_size_estimate_tracks_consumption_exactly() {
    let mut peekable = VecSource::new(vec![1, 2, 3, 4]).fully_peekable();
    assert_eq!(peekable.size_hint(), (4, Some(4)));
    peekable.next();
    assert_eq!(peekable.size_hint(), (3, Some(3)));
    peekable.lift(2);
    assert_eq!(peekable.size_hint(), (3, Some(3)));
    peekable.next();
    peekable.next();
    assert_eq!(peekable.size_hint(), (1, Some(1)));
    peekable.next();
    assert_eq!(peekable.size_hint(), (0, Some(0)));
}

#[test]
fn advancing_runs_through_the_source_then_reports_exhaustion() {
    let mut peekable = VecSource::new(vec![1, 2]).fully_peekable();
    assert_eq!(peekable.has_next(), true);
    assert_eq!(peekable.next(), Some(1));
    assert_eq!(peekable.next(), Some(2));
    assert_eq!(peekable.has_next(), false);
    assert_eq!(peekable.next(), None);
}

#[test]
fn peeking_a_range_past_the_end_still_advances_in_order() {
    let mut peekable = VecSource::new(vec![1, 2]).fully_peekable();
    assert_eq!(peekable.lift_many(1, 3), vec![Some(&2), None]);
    assert_eq!(peekable.next(), Some(1));
    assert_eq!(peekable.next(), Some(2));
    assert_eq!(peekable.next(), None);
}

#[test]
fn the_estimate_counts_buffered_elements_under_an_unknown_bound() {
    let mut peekable = UnhintedVecSource::new(vec![1, 2]).fully_peekable();
    assert_eq!(peekable.peek(), Some(&1));
    assert_eq!(peekable.size_hint(), (1, None));
    assert_eq!(peekable.peek_many(3), vec![Some(&1), Some(&2), None]);
    assert_eq!(peekable.size_hint(), (2, None));
}

#[test]
fn next_if_consumes_exactly_the_matching_front_elements() {
    let mut peekable = VecSource::new(vec![1, 2]).fully_peekable();
    assert_eq!(peekable.next_if(|v| *v == 0), None);
    assert_eq!(peekable.next_if(|v| *v == 1), Some(1));
    assert_eq!(peekable.next_if(|v| *v == 1), None);
    assert_eq!(peekable.next_if(|v| *v == 2), Some(2));
    assert_eq!(peekable.has_next(), false);
}

#[test]
fn a_fully_out_of_range_window_is_harmless() {
    let mut peekable = VecSource::new(vec![1, 2]).fully_peekable();
    assert_eq!(peekable.lift_many(5, 7), vec![None, None]);
    assert_eq!(peekable.next(), Some(1));
    assert_eq!(peekable.next(), Some(2));
    assert_eq!(peekable.next(), None);
}

#[test]
fn degenerate_ranges_yield_empty_results_without_faulting() {
    let mut peekable = VecSource::new(vec![1, 2]).fully_peekable();
    assert_eq!(peekable.lift_many(3, 1), vec![]);
    assert_eq!(peekable.lift_many(0, 0), vec![]);
    assert_eq!(peekable.lift_many(2, 2), vec![]);
    assert_eq!(peekable.peek_many(0), vec![]);
    assert_eq!(peekable.next(), Some(1));
    assert_eq!(peekable.next(), Some(2));
    assert_eq!(peekable.next(), None);
}

#[test]
fn an_empty_source_is_exhausted_from_the_start() {
    let mut peekable = VecSource::new(Vec::<i32>::new()).fully_peekable();
    assert_eq!(peekable.size_hint(), (0, Some(0)));
    assert_eq!(peekable.has_next(), false);
    assert_eq!(peekable.peek(), None);
    assert_eq!(peekable.lift_mut(0), None);
    assert_eq!(peekable.next_if(|_| true), None);
    assert_eq!(peekable.next_if_eq(&1), None);
    assert_eq!(peekable.next(), None);
}

#[test]
fn writing_through_a_mutable_peek_changes_what_next_returns() {
    let mut peekable = VecSource::new(vec![1, 2, 3]).fully_peekable();
    if let Some(v) = peekable.lift_mut(1) {
        *v = 20;
    }
    if let Some(v) = peekable.peek_mut() {
        *v = 10;
    }
    assert_eq!(peekable.next(), Some(10));
    assert_eq!(peekable.next(), Some(20));
    assert_eq!(peekable.next(), Some(3));
    assert_eq!(peekable.next(), None);
}
