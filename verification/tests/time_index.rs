use raphtory::time_index::{narrow, within, TimeIndex, TimeIndexEntry};

fn index_of(times: &[(i64, usize)]) -> TimeIndex {
    let mut idx = TimeIndex::new();
    for (t, s) in times {
        idx.insert(TimeIndexEntry(*t, *s));
    }
    idx
}

#[test]
fn insert_out_of_order_is_sorted_and_deduplicated() {
    let idx = index_of(&[(5, 0), (1, 0), (9, 0), (5, 0), (1, 0), (3, 0)]);
    assert_eq!(idx.iter_t(), vec![1, 3, 5, 9]);
    assert_eq!(idx.len(), 4);
}

#[test]
fn insert_reports_whether_the_entry_is_new() {
    let mut idx = TimeIndex::new();
    assert!(idx.insert(TimeIndexEntry(4, 1)));
    assert!(!idx.insert(TimeIndexEntry(4, 1)));
    assert!(idx.insert(TimeIndexEntry(4, 0)));
    assert_eq!(idx.get(0), Some(TimeIndexEntry(4, 0)));
    assert_eq!(idx.get(1), Some(TimeIndexEntry(4, 1)));
    assert_eq!(idx.get(2), None);
}

#[test]
fn secondary_key_orders_entries_of_one_timestamp() {
    let idx = index_of(&[(7, 3), (7, 1), (6, 9), (7, 2)]);
    assert_eq!(idx.get(0), Some(TimeIndexEntry(6, 9)));
    assert_eq!(idx.get(1), Some(TimeIndexEntry(7, 1)));
    assert_eq!(idx.get(2), Some(TimeIndexEntry(7, 2)));
    assert_eq!(idx.get(3), Some(TimeIndexEntry(7, 3)));
    assert_eq!(idx.iter_t(), vec![6, 7, 7, 7]);
}

#[test]
fn first_and_last_are_min_and_max() {
    let idx = index_of(&[(40, 0), (-3, 0), (12, 0), (40, 0), (i64::MAX, 0), (i64::MIN, 0)]);
    assert_eq!(idx.first_t(), Some(i64::MIN));
    assert_eq!(idx.last_t(), Some(i64::MAX));
}

#[test]
fn empty_index_has_no_first_or_last() {
    let idx = TimeIndex::new();
    assert!(idx.is_empty());
    assert_eq!(idx.first_t(), None);
    assert_eq!(idx.last_t(), None);
    assert_eq!(idx.range(i64::MIN, i64::MAX).len(), 0);
    assert!(!idx.active(i64::MIN, i64::MAX));
}

#[test]
fn range_is_half_open() {
    let idx = index_of(&[(1, 0), (2, 0), (3, 0), (4, 0), (5, 0)]);
    assert_eq!(idx.range(2, 4).iter_t(), vec![2, 3]);
    assert_eq!(idx.range(0, 1).iter_t(), Vec::<i64>::new());
    assert_eq!(idx.range(5, 6).iter_t(), vec![5]);
    assert_eq!(idx.range(4, 2).iter_t(), Vec::<i64>::new());
    assert_eq!(idx.range(3, 3).iter_t(), Vec::<i64>::new());
}

#[test]
fn sentinel_window_leaves_out_only_the_greatest_time() {
    let idx = index_of(&[(i64::MIN, 0), (0, 0), (i64::MAX, 0)]);
    assert_eq!(idx.range(i64::MIN, i64::MAX).iter_t(), vec![i64::MIN, 0]);
    assert_eq!(idx.range_in(None).iter_t(), vec![i64::MIN, 0, i64::MAX]);
}

#[test]
fn active_tells_whether_the_window_has_an_entry() {
    let idx = index_of(&[(10, 0), (20, 0)]);
    assert!(idx.active(10, 11));
    assert!(idx.active(0, 100));
    assert!(!idx.active(11, 20));
    assert!(!idx.active(21, 30));
}

#[test]
fn merge_inserts_every_entry() {
    let mut a = index_of(&[(1, 0), (5, 0)]);
    let b = index_of(&[(3, 0), (5, 0), (0, 0)]);
    a.merge(&b.all());
    assert_eq!(a.iter_t(), vec![0, 1, 3, 5]);
}

#[test]
fn narrow_intersects_windows() {
    assert_eq!(narrow(None, 3, 9), Some((3, 9)));
    assert_eq!(narrow(Some((0, 5)), 3, 9), Some((3, 5)));
    assert_eq!(narrow(Some((4, 20)), 3, 9), Some((4, 9)));
    assert_eq!(narrow(Some((0, 3)), 6, 10), Some((6, 3)));
    assert!(within(7, None));
    assert!(within(3, Some((3, 4))));
    assert!(!within(4, Some((3, 4))));
}

#[test]
fn entry_order_is_by_time_then_secondary() {
    assert!(TimeIndexEntry::new(1, 9).before(&TimeIndexEntry::new(2, 0)));
    assert!(TimeIndexEntry::new(2, 0).before(&TimeIndexEntry::new(2, 1)));
    assert!(!TimeIndexEntry::new(2, 1).before(&TimeIndexEntry::new(2, 1)));
    assert_eq!(TimeIndexEntry::new(2, 1).t(), 2);
}

#[test]
fn last_at_finds_the_greatest_entry_not_after_a_time() {
    let idx = index_of(&[(2, 0), (4, 0), (4, 3), (9, 1)]);
    assert_eq!(idx.last_at(1), None);
    assert_eq!(idx.last_at(2), Some(TimeIndexEntry(2, 0)));
    assert_eq!(idx.last_at(4), Some(TimeIndexEntry(4, 3)));
    assert_eq!(idx.last_at(8), Some(TimeIndexEntry(4, 3)));
    assert_eq!(idx.last_at(i64::MAX), Some(TimeIndexEntry(9, 1)));
    assert_eq!(TimeIndex::new().last_at(0), None);
}

#[test]
fn a_window_is_a_view_that_can_be_copied_out() {
    let idx = index_of(&[(1, 0), (2, 0), (3, 0), (4, 0)]);
    let w = idx.range(2, 4);
    assert_eq!(w.len(), 2);
    assert!(!w.is_empty());
    assert_eq!(w.get(0), Some(TimeIndexEntry(2, 0)));
    assert_eq!(w.get(1), Some(TimeIndexEntry(3, 0)));
    assert_eq!(w.get(2), None);
    assert_eq!(w.first_t(), Some(2));
    assert_eq!(w.last_t(), Some(3));
    let copy = w.to_index();
    assert_eq!(copy.iter_t(), vec![2, 3]);
    assert_eq!(idx.all().len(), 4);
    assert!(idx.range(9, 1).is_empty());
    assert_eq!(idx.range(9, 1).first_t(), None);
}
