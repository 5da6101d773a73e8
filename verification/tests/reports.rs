//! The report engine: counting, capping, and the milestone statistic.

use packdiag::scanner::{build_invalid_listing, ItemStatus, Scanner};

#[test]
fn register_counts_each_outcome() {
    let mut sc: Scanner<String> = Scanner::new("items");
    sc.register(ItemStatus::Valid);
    sc.register(ItemStatus::Valid);
    sc.register(ItemStatus::Ignored);
    sc.register(ItemStatus::Invalid("bad".to_string()));
    assert_eq!(sc.valid_count, 2);
    assert_eq!(sc.invalid_items, vec!["bad".to_string()]);
    assert_eq!(sc.joined_count(), 3);
}

#[test]
fn milestone_is_tenths_toward_the_next_thousand() {
    let mut sc: Scanner<String> = Scanner::new("items");
    for _ in 0..1250 {
        sc.register(ItemStatus::Valid);
    }
    // 250 tenths of a percent: 25.0% of the way to the next 1000
    assert_eq!(sc.milestone_tenths(), 250);
}

#[test]
fn listing_of_150_invalid_entries_shows_100_and_counts_50_more() {
    let messages: Vec<String> = (0..150).map(|i| format!("invalid item {i}")).collect();
    let listing = build_invalid_listing(&messages);
    assert_eq!(listing.listed.len(), 100);
    assert_eq!(listing.listed[0], "invalid item 0");
    assert_eq!(listing.listed[99], "invalid item 99");
    assert_eq!(listing.remainder, 50);
    assert_eq!(listing.remainder_note(), Some("... and 50 more.".to_string()));
}

#[test]
fn listing_of_no_invalid_entries_omits_the_remainder_line() {
    let messages: Vec<String> = Vec::new();
    let listing = build_invalid_listing(&messages);
    assert_eq!(listing.listed.len(), 0);
    assert_eq!(listing.remainder, 0);
    assert_eq!(listing.remainder_note(), None);
}

#[test]
fn listing_at_the_cap_is_not_truncated() {
    let messages: Vec<String> = (0..100).map(|i| format!("m{i}")).collect();
    let listing = build_invalid_listing(&messages);
    assert_eq!(listing.listed.len(), 100);
    assert_eq!(listing.remainder, 0);
    assert_eq!(listing.remainder_note(), None);
}
