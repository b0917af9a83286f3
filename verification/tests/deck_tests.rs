//! The decklist diff law on concrete multisets.

use arenabuddy::deck::apply;
use arenabuddy::deck::count_copies;
use arenabuddy::deck::diff;

#[test]
fn diff_of_equal_lists_is_empty() {
    let a = vec![(101u64, 4u32), (102, 20)];
    let d = diff(&a, &a);
    assert!(d.added.is_empty());
    assert!(d.removed.is_empty());

    // Equal as multisets even though ordered differently.
    let b = vec![(102u64, 20u32), (101, 2), (101, 2)];
    let d = diff(&a, &b);
    assert!(d.added.is_empty());
    assert!(d.removed.is_empty());
}

#[test]
fn diff_reports_growth_and_loss() {
    let a = vec![(101u64, 4u32), (102, 20)];
    let b = vec![(101u64, 2u32), (103, 3)];
    let d = diff(&a, &b);
    assert_eq!(count_copies(&d.added, 103), 3);
    assert_eq!(count_copies(&d.added, 101), 0);
    assert_eq!(count_copies(&d.removed, 101), 2);
    assert_eq!(count_copies(&d.removed, 102), 20);
}

#[test]
fn apply_diff_reconstructs_the_next_list() {
    let a = vec![(101u64, 4u32), (102, 20), (104, 1)];
    let b = vec![(101u64, 1u32), (103, 3), (104, 1)];
    let d = diff(&a, &b);
    let rebuilt = apply(&d, &a);
    for id in [100u64, 101, 102, 103, 104, 105] {
        assert_eq!(
            count_copies(&rebuilt, id),
            count_copies(&b, id),
            "count for {id}"
        );
    }
}
