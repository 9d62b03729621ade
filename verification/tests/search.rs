//! Searching.

use rit::app::search::should_narrow;

#[test]
fn narrow_when_query_extends_within_same_generation() {
    assert!(should_narrow("foo", 1, "foob", 1));
    assert!(should_narrow("a", 5, "abc", 5));
}

#[test]
fn rescan_when_query_shrinks() {
    assert!(!should_narrow("foobar", 1, "foo", 1));
    assert!(!should_narrow("ab", 1, "a", 1));
}

#[test]
fn rescan_when_query_changes_completely() {
    assert!(!should_narrow("foo", 1, "bar", 1));
}

#[test]
fn rescan_after_reload_changes_generation() {
    // Even though the new query strictly extends the old, a reload
    // means the row indices the previous match set referenced may not
    // line up anymore.
    assert!(!should_narrow("foo", 1, "foobar", 2));
}

#[test]
fn rescan_when_no_previous_query() {
    // An empty previous query means there's no prior match set to
    // narrow; the new query must scan the whole index.
    assert!(!should_narrow("", 1, "f", 1));
}

#[test]
fn rescan_when_query_stays_the_same() {
    assert!(!should_narrow("foo", 1, "foo", 1));
}
