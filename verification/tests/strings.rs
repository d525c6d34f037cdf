use rylv_metrics::aggregator::remove_entry;
use rylv_metrics::fmt::u64_to_string;
use rylv_metrics::key::{str_eq, AggregatorEntryKey, LookupKey};
use rylv_metrics::rstr::str_le;
use rylv_metrics::tags::sort_tags;
use rylv_metrics::{materialize_tags, RylvStr};
use std::borrow::Cow;

#[test]
fn decimal_rendering_is_exact() {
    assert_eq!(u64_to_string(0), "0");
    assert_eq!(u64_to_string(7), "7");
    assert_eq!(u64_to_string(12345), "12345");
    assert_eq!(u64_to_string(u64::MAX), "18446744073709551615");
}

#[test]
fn string_order_is_lexicographic() {
    assert!(str_le("abc", "abd"));
    assert!(str_le("abc", "abc"));
    assert!(str_le("ab", "abc"));
    assert!(!str_le("b", "abc"));
    assert!(str_eq("tag:v", "tag:v"));
    assert!(!str_eq("tag:v", "tag:w"));
}

#[test]
fn sort_tags_orders_by_content() {
    let mut tags = vec![
        RylvStr::from_static("c:3"),
        RylvStr::from_static("a:1"),
        RylvStr::from_static("b:2"),
    ];
    sort_tags(&mut tags);
    let texts: Vec<&str> = tags.iter().map(|t| t.as_str()).collect();
    assert_eq!(texts, ["a:1", "b:2", "c:3"]);
}

#[test]
fn materialize_tags_joins_with_commas() {
    let tags = [
        RylvStr::from_static("a:1"),
        RylvStr::from_static("b:2"),
        RylvStr::from_static("c:3"),
    ];
    let t = materialize_tags(&tags);
    assert_eq!(t.joined_tags.as_ref(), "a:1,b:2,c:3");
    assert_eq!(t.tags.len(), 3);
}

#[test]
fn materialize_no_tags_gives_empty_join() {
    let t = materialize_tags(&[]);
    assert_eq!(t.joined_tags.as_ref(), "");
    assert!(t.tags.is_empty());
}

#[test]
fn static_promotion_does_not_copy() {
    let s = RylvStr::from_static("immortal");
    let cow = s.to_cow();
    assert!(matches!(cow, Cow::Borrowed(_)));
    assert_eq!(cow.as_ref(), "immortal");
    let b = RylvStr::Borrowed("scoped");
    assert!(matches!(b.to_cow(), Cow::Owned(_)));
}

#[test]
fn lookup_key_compares_by_content() {
    let tags = [RylvStr::from_static("a:1")];
    let lk = LookupKey::new(RylvStr::from_static("metric"), &tags);
    let key = LookupKey::new(RylvStr::from_static("metric"), &tags).into_key(0);
    assert!(lk.compare(&key));

    let other_tags = [RylvStr::from_static("a:2")];
    let other = LookupKey::new(RylvStr::from_static("metric"), &other_tags).into_key(1);
    assert!(!lk.compare(&other));
}

#[test]
fn compare_tags_checks_length_and_content() {
    let tags = [RylvStr::from_static("a:1"), RylvStr::from_static("b:2")];
    let lk = LookupKey::new(RylvStr::from_static("m"), &tags);
    let stored = vec![Cow::Borrowed("a:1"), Cow::Borrowed("b:2")];
    assert!(lk.compare_tags(&stored));
    let shorter = vec![Cow::Borrowed("a:1")];
    assert!(!lk.compare_tags(&shorter));
    let differing = vec![Cow::Borrowed("a:1"), Cow::Borrowed("b:3")];
    assert!(!lk.compare_tags(&differing));
}

#[test]
fn stale_removal_spares_a_reinserted_key() {
    let tags = [RylvStr::from_static("a:1")];
    let first: AggregatorEntryKey =
        LookupKey::new(RylvStr::from_static("metric"), &tags).into_key(7);
    let stale = first.to_key();
    assert_eq!(stale.hash, first.hash);
    assert_eq!(stale.id, 7);

    let mut entries: Vec<(AggregatorEntryKey, u64)> = vec![(first, 3u64)];
    assert_eq!(remove_entry(&mut entries, &stale), Some(3));
    assert!(entries.is_empty());

    // the same content re-inserted under a fresh id is not touched by the
    // stale capture
    let again: AggregatorEntryKey =
        LookupKey::new(RylvStr::from_static("metric"), &tags).into_key(8);
    entries.push((again, 5u64));
    assert_eq!(remove_entry(&mut entries, &stale), None);
    assert_eq!(entries.len(), 1);
}
