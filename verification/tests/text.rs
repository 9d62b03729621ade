//! Texts, ids and small formats.

use rit::git::meta::{
    format_timestamp, format_timestamp_at, relative_time_at, relative_time_since, repo_info_for,
    working_tree_author, Clock,
};
use rit::model::{DiffFlags, ObjectId, PathFilter};
use rit::text::{
    chars_of, comes_before, is_blank, push_decimal, same_text, split_lines, strip_prefix_of,
    trim_end_white,
};
use rit::ui::format::{decimal_text, padded_text, push_number, push_plural, truncate_chars};

fn id_of(bytes: [u8; 20]) -> ObjectId {
    ObjectId::from_slice(&bytes).expect("twenty bytes")
}

#[test]
fn lines_end_at_line_feeds_with_their_carriage_returns() {
    assert_eq!(split_lines("a\r\nb\n\nc"), ["a", "b", "", "c"]);
    assert_eq!(split_lines("a\n"), ["a"]);
    assert_eq!(split_lines("a\r"), ["a\r"]);
    assert_eq!(split_lines("\n"), [""]);
    assert!(split_lines("").is_empty());
}

#[test]
fn texts_compare_by_their_characters() {
    assert!(same_text("naïve", "naïve"));
    assert!(!same_text("a", "ab"));
    assert!(comes_before("a", "ab"));
    assert!(comes_before("Z", "a"));
    assert!(comes_before("z", "é"));
    assert!(!comes_before("a", "a"));
    assert!(!comes_before("b", "ab"));
}

#[test]
fn white_space_is_that_of_unicode() {
    assert!(is_blank(" \t\u{3000}"));
    assert!(is_blank(""));
    assert!(!is_blank(" x "));
    assert_eq!(trim_end_white("a b \u{2003}\n"), "a b");
}

#[test]
fn prefixes_are_taken_off_whole() {
    assert_eq!(strip_prefix_of("refs/heads/main", "refs/heads/").as_deref(), Some("main"));
    assert_eq!(strip_prefix_of("refs/heads/", "refs/heads/").as_deref(), Some(""));
    assert_eq!(strip_prefix_of("refs/tags/v1", "refs/heads/"), None);
    assert_eq!(strip_prefix_of("ref", "refs/heads/"), None);
}

#[test]
fn numbers_are_written_in_decimal() {
    let mut out = String::from("n=");
    push_decimal(&mut out, 0);
    push_decimal(&mut out, u64::MAX);
    assert_eq!(out, "n=018446744073709551615");
    assert_eq!(decimal_text(1234), "1234");
    let mut out = String::new();
    push_number(&mut out, 42, 4);
    push_number(&mut out, 12345, 4);
    assert_eq!(out, "  4212345");
    let mut out = String::new();
    push_plural(&mut out, 1);
    assert_eq!(out, "");
    push_plural(&mut out, 0);
    push_plural(&mut out, 2);
    assert_eq!(out, "ss");
}

#[test]
fn columns_are_cut_and_padded_by_characters() {
    assert_eq!(truncate_chars("héllo", 2), "hé");
    assert_eq!(truncate_chars("hi", 9), "hi");
    assert_eq!(padded_text("hé", 4), "hé  ");
    assert_eq!(padded_text("hello", 4), "hello");
    assert_eq!(chars_of("né"), ['n', 'é']);
}

#[test]
fn ids_are_twenty_bytes_in_hexadecimal() {
    let mut bytes = [0u8; 20];
    for (i, b) in bytes.iter_mut().enumerate() {
        *b = 0x10 * (i as u8 % 16) + 15 - (i as u8 % 16);
    }
    let id = id_of(bytes);
    assert_eq!(id.to_hex(), "0f1e2d3c4b5a69788796a5b4c3d2e1f00f1e2d3c");
    assert_eq!(id.to_short_hex(), "0f1e2d3");
    assert_eq!(ObjectId::null().to_hex(), "0".repeat(40));
    assert!(ObjectId::from_slice(&bytes[..19]).is_none());
    assert!(ObjectId::from_slice(&[]).is_none());
}

#[test]
fn ids_are_ordered_by_their_bytes() {
    let mut low = [7u8; 20];
    let high = [7u8; 20];
    for at in [0, 8, 19] {
        low[at] = 6;
        assert!(id_of(low).is_before(&id_of(high)));
        assert!(!id_of(high).is_before(&id_of(low)));
        low[at] = 7;
    }
    assert!(!id_of(low).is_before(&id_of(high)));
}

#[test]
fn ages_are_told_in_one_unit() {
    assert_eq!(relative_time_since(-1), "now");
    assert_eq!(relative_time_since(0), "0s ago");
    assert_eq!(relative_time_since(59), "59s ago");
    assert_eq!(relative_time_since(60), "1m ago");
    assert_eq!(relative_time_since(3599), "59m ago");
    assert_eq!(relative_time_since(7200), "2h ago");
    assert_eq!(relative_time_since(86400), "1d ago");
    assert_eq!(relative_time_since(86400 * 30), "1mo ago");
    assert_eq!(relative_time_since(86400 * 364), "12mo ago");
    assert_eq!(relative_time_since(86400 * 365), "1y ago");
    assert_eq!(relative_time_since(i64::MAX), "292471208677y ago");
}

#[test]
fn timestamps_are_told_in_utc() {
    assert_eq!(format_timestamp(0), "Thu Jan  1 00:00:00 1970 +0000");
    assert_eq!(format_timestamp(1_700_000_000), "Tue Nov 14 22:13:20 2023 +0000");
    assert!(format_timestamp(i64::MAX).ends_with(" +0000"));
}

#[test]
fn ages_are_cut_off_toward_zero() {
    let now = Clock { secs: 1_700_000_000, nanos: 500_000_000 };
    assert_eq!(relative_time_at(now, 1_700_000_000), "0s ago");
    assert_eq!(relative_time_at(now, 1_699_999_940), "1m ago");
    assert_eq!(relative_time_at(now, 1_700_000_001), "0s ago");
    assert_eq!(relative_time_at(now, 1_700_000_002), "now");
    assert_eq!(relative_time_at(now, i64::MIN), "0s ago", "out of the calendar");
    assert_eq!(format_timestamp_at(now, 0), "Thu Jan  1 00:00:00 1970 +0000");
    assert_eq!(format_timestamp_at(now, i64::MIN), "Tue Nov 14 22:13:20 2023 +0000");
}

#[test]
fn repositories_are_named_after_their_directory() {
    let some = |s: &str| Some(s.to_string());
    let named = |dir: Option<String>, home: Option<String>| repo_info_for(dir, home, None).name;
    assert_eq!(named(None, some("/home/u")), "unknown");
    assert_eq!(named(some("/home/u"), some("/home/u")), "~");
    assert_eq!(named(some("/home/u/src/rit"), some("/home/u")), "~/src/rit");
    assert_eq!(named(some("/home/user2"), some("/home/u")), "/home/user2");
    assert_eq!(named(some("/srv/rit"), None), "/srv/rit");
    let info = repo_info_for(None, None, some("main"));
    assert_eq!(info.branch, "main");
    assert!(info.path_filter.is_none());
    assert_eq!(repo_info_for(None, None, None).branch, "HEAD");
}

#[test]
fn blank_author_names_are_passed_over() {
    let some = |s: &str| Some(s.to_string());
    assert_eq!(working_tree_author(some("Ada"), some("ada"), some("al")), "Ada");
    assert_eq!(working_tree_author(some(" \t"), some("ada"), some("al")), "ada");
    assert_eq!(working_tree_author(None, None, some("al")), "al");
    assert_eq!(working_tree_author(None, None, None), "you");
}

#[test]
fn path_filters_keep_their_text() {
    let filter = PathFilter::new(":!vendor");
    assert_eq!(filter.as_str(), ":!vendor");
    assert_eq!(filter.clone().as_str(), ":!vendor");
}

#[test]
fn a_diff_starts_without_flags() {
    let flags = DiffFlags::default();
    assert!(!flags.truncated);
    assert_eq!(flags.skipped_binary_files, 0);
    assert_eq!(flags.skipped_large_files, 0);
}
