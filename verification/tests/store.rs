//! The in-memory launch counters.

use omarchycastd::search::store::{now_unix, Usage, UsageCache};

#[test]
fn launches_are_counted() {
    let mut cache = UsageCache::from_rows(vec![
        ("b.desktop".to_string(), Usage { launches: 3, last_used: 10 }),
        ("a.desktop".to_string(), Usage { launches: 1, last_used: 5 }),
    ]);
    assert_eq!(cache.usage("b.desktop").launches, 3);
    assert_eq!(cache.usage("zzz").launches, 0);
    cache.record("a.desktop", 99);
    let a = cache.usage("a.desktop");
    assert_eq!((a.launches, a.last_used), (2, 99));
    cache.record("new.desktop", 7);
    assert_eq!(cache.usage("new.desktop").launches, 1);
    assert_eq!(cache.usage("b.desktop").last_used, 10);
    let d = Usage::default();
    assert_eq!((d.launches, d.last_used), (0, 0));
    assert!(now_unix() > 0);
}

#[test]
fn a_later_row_overrides_an_earlier_one() {
    let cache = UsageCache::from_rows(vec![
        ("k".to_string(), Usage { launches: 1, last_used: 1 }),
        ("k".to_string(), Usage { launches: 4, last_used: 2 }),
    ]);
    assert_eq!(cache.usage("k").launches, 4);
    let mut maxed = UsageCache::from_rows(vec![("m".to_string(), Usage { launches: u32::MAX, last_used: 0 })]);
    maxed.record("m", 1);
    assert_eq!(maxed.usage("m").launches, u32::MAX);
}
