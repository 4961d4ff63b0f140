use himawari::DownloadId;
use std::cmp::Ordering;
use std::collections::hash_map::DefaultHasher;
use std::collections::HashSet;
use std::hash::{Hash, Hasher};

fn hash_of(id: &DownloadId) -> u64 {
    let mut hasher = DefaultHasher::new();
    id.hash(&mut hasher);
    hasher.finish()
}

#[test]
fn same_instant_is_the_same_identifier() {
    let a = DownloadId::new(1_704_164_645, 0);
    let b = DownloadId::new(1_704_164_645, 0);
    assert_eq!(a, b);
    assert_eq!(hash_of(&a), hash_of(&b));
    assert_eq!(a.partial_cmp(&b), Some(Ordering::Equal));
    assert_eq!(a.cmp(&b), Ordering::Equal);
    assert!(!a.precedes(&b));
}

#[test]
fn identifier_keeps_its_instant() {
    let id = DownloadId::new(-5, 999_999_999);
    assert_eq!(id.timestamp(), -5);
    assert_eq!(id.subsec_nanos(), 999_999_999);
}

#[test]
fn identifiers_compare_in_instant_order() {
    let early = DownloadId::new(100, 500);
    let late = DownloadId::new(101, 0);
    let later_in_second = DownloadId::new(100, 501);
    assert!(early < late);
    assert!(late > early);
    assert!(early < later_in_second);
    assert!(later_in_second < late);
    assert!(early.precedes(&late));
    assert!(!late.precedes(&early));
    assert_ne!(early, late);
    assert_eq!(early.partial_cmp(&late), Some(Ordering::Less));
    assert_eq!(late.partial_cmp(&early), Some(Ordering::Greater));
    assert_eq!(early.cmp(&late), Ordering::Less);
    assert_eq!(late.cmp(&later_in_second), Ordering::Greater);
}

#[test]
fn leap_second_sorts_within_its_second() {
    let before = DownloadId::new(59, 999_999_999);
    let leap = DownloadId::new(59, 1_500_000_000);
    let after = DownloadId::new(60, 0);
    assert!(before < leap);
    assert!(leap < after);
}

#[test]
fn negative_seconds_come_first() {
    assert!(DownloadId::new(-1, 0) < DownloadId::new(0, 0));
    assert!(DownloadId::new(i64::MIN, u32::MAX) < DownloadId::new(i64::MAX, 0));
}

#[test]
fn identifiers_work_as_set_keys() {
    let mut seen = HashSet::new();
    assert!(seen.insert(DownloadId::new(10, 0)));
    assert!(!seen.insert(DownloadId::new(10, 0)));
    assert!(seen.insert(DownloadId::new(10, 1)));
    assert!(seen.contains(&DownloadId::new(10, 1)));
    assert!(!seen.contains(&DownloadId::new(11, 0)));
}

#[test]
fn sorting_identifiers_uses_instant_order() {
    let mut ids = vec![
        DownloadId::new(3, 0),
        DownloadId::new(1, 5),
        DownloadId::new(2, 0),
        DownloadId::new(1, 4),
    ];
    ids.sort();
    assert_eq!(
        ids,
        vec![
            DownloadId::new(1, 4),
            DownloadId::new(1, 5),
            DownloadId::new(2, 0),
            DownloadId::new(3, 0),
        ]
    );
}
