use elden_runes::catalogue::Catalogue;
use elden_runes::count::RuneCount;
use elden_runes::stats::VerboseStats;
use elden_runes::{default_path, rune_label, rune_value, Error};

#[test]
fn totals_and_slices() {
    let v = RuneCount::from_counts(vec![
        2, 1, 0, 0, 0, 0, 0, 0, 0, 0, 0, 0, 0, 0, 0, 0, 0, 0, 0, 1,
    ]);
    assert_eq!(v.total(), 2 * 200 + 400 + 50000);
    assert_eq!(v.slice_total(0, 2), 2 * 200 + 400);
    assert_eq!(v.slice_total(2, 19), 0);
    assert!(v.has(0));
    assert!(!v.has(2));
}

#[test]
fn total_saturates() {
    let v = RuneCount::from_counts(vec![u32::MAX; 20]);
    assert_eq!(v.total(), u32::MAX);
}

#[test]
fn decrement_by_subtracts_pointwise() {
    let mut v = RuneCount::from_counts(vec![
        5, 4, 3, 0, 0, 0, 0, 0, 0, 0, 0, 0, 0, 0, 0, 0, 0, 0, 0, 2,
    ]);
    let w = RuneCount::from_counts(vec![
        1, 4, 2, 0, 0, 0, 0, 0, 0, 0, 0, 0, 0, 0, 0, 0, 0, 0, 0, 2,
    ]);
    v.decrement_by(&w);
    assert_eq!(
        v,
        RuneCount::from_counts(vec![
            4, 0, 1, 0, 0, 0, 0, 0, 0, 0, 0, 0, 0, 0, 0, 0, 0, 0, 0, 0
        ])
    );
}

#[test]
fn catalogue_entries() {
    assert_eq!(rune_value(0), 200);
    assert_eq!(rune_value(19), 50000);
    assert_eq!(rune_label(0), "Golden Rune [1]");
    assert_eq!(rune_label(13), "Numen's Rune");
    assert_eq!(rune_label(19), "Lord's Rune");
    assert_eq!(default_path(), "./elden_runes");
}

#[test]
fn verbose_stats_arithmetic() {
    let mut v = RuneCount::default();
    v.set_count(5, 1);
    let stats = VerboseStats::new(300, 2200, v);
    assert_eq!(stats.to_consume, 2000);
    assert_eq!(stats.before_spending, 2300);
    assert_eq!(stats.after_spending, 100);
    assert_eq!(
        stats.render(),
        "In total, you're consuming 2000 runes, which will result in you having 2300 runes, \
         leaving 100 after spending"
    );
}

#[test]
fn catalogue_build_sorts() {
    let entries = vec![
        ("gold".to_owned(), 300u32),
        ("silver".to_owned(), 100u32),
        ("bronze".to_owned(), 200u32),
    ];
    let cat = Catalogue::build(entries).unwrap();
    assert_eq!(cat.len(), 3);
    assert_eq!(cat.value_at(0), 100);
    assert_eq!(cat.label_at(0), "silver");
    assert_eq!(cat.value_at(1), 200);
    assert_eq!(cat.value_at(2), 300);
    assert_eq!(cat.index_of_label("gold"), Some(2));
    assert_eq!(cat.index_of_label("tin"), None);
}

#[test]
fn catalogue_build_rejects_duplicates() {
    let entries = vec![
        ("a".to_owned(), 500u32),
        ("b".to_owned(), 100u32),
        ("c".to_owned(), 500u32),
        ("d".to_owned(), 100u32),
    ];
    // both 500 and 100 collide; the smallest colliding value is named
    assert_eq!(
        Catalogue::build(entries).unwrap_err(),
        Error::DuplicateValue(100)
    );
}
