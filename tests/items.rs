use icedmenu::item::{items_from_records, parse_items, Item, ItemData, ItemsError};
use icedmenu::matcher::{rank_by_score, similar_fonts};

#[test]
fn parse_items_reads_keys_and_values() {
    let items = parse_items(b"apple,red\nbanana,\ncherry,dark").ok().unwrap();
    assert_eq!(items.len(), 3);
    assert_eq!(items[0].data.key, "apple");
    assert_eq!(items[0].data.value, Some(String::from("red")));
    assert_eq!(items[1].data.key, "banana");
    assert_eq!(items[1].data.value, None);
    assert_eq!(items[2].data.value, Some(String::from("dark")));
    for (i, item) in items.iter().enumerate() {
        assert_eq!(item.index, i);
        assert_eq!(item.score, None);
        assert!(!item.selected);
    }
}

#[test]
fn parse_items_single_column() {
    let items = parse_items(b"a\nb\nc\n").ok().unwrap();
    let keys: Vec<&str> = items.iter().map(|i| i.data.key.as_str()).collect();
    assert_eq!(keys, vec!["a", "b", "c"]);
    assert!(items.iter().all(|i| i.data.value.is_none()));
}

#[test]
fn parse_items_empty_source() {
    let items = parse_items(b"").ok().unwrap();
    assert!(items.is_empty());
}

#[test]
fn parse_items_unequal_records_is_malformed() {
    assert!(matches!(parse_items(b"a,b\nc\n"), Err(ItemsError::Malformed(_))));
}

#[test]
fn record_without_fields_has_no_key() {
    let records = vec![vec![String::from("a")], vec![], vec![String::from("c")]];
    assert!(matches!(items_from_records(&records), Err(ItemsError::MissingKey { record: 1 })));
}

#[test]
fn ranking_prefers_higher_scores_then_earlier_entries() {
    let mk = |index: usize, score: Option<i64>| {
        let mut item = Item::new(index, ItemData { key: String::from("k"), value: None });
        item.score = score;
        item
    };
    assert!(mk(3, Some(10)).ranks_before(&mk(1, Some(5))));
    assert!(!mk(1, Some(5)).ranks_before(&mk(3, Some(10))));
    assert!(mk(1, Some(5)).ranks_before(&mk(2, Some(5))));
    assert!(mk(7, Some(0)).ranks_before(&mk(0, None)));
    assert!(mk(4, Some(2)).ranks_before(&mk(1, Some(-3))));
    assert!(mk(4, Some(-3)).ranks_before(&mk(1, None)));
    assert!(mk(0, None).ranks_before(&mk(1, None)));
    assert!(!mk(1, None).ranks_before(&mk(0, None)));
}

#[test]
fn scores_rank_best_first_and_skip_unscored() {
    let scores = vec![Some(3), None, Some(7), Some(3), Some(1)];
    assert_eq!(rank_by_score(&scores, 3), vec![2, 0, 3]);
    assert_eq!(rank_by_score(&scores, 10), vec![2, 0, 3, 4]);
    assert!(rank_by_score(&scores, 0).is_empty());
}

#[test]
fn similar_fonts_suggests_matching_families() {
    let installed: Vec<String> =
        ["DejaVu Sans", "Fira Code", "Fira Sans", "Noto Serif"].iter().map(|s| String::from(*s)).collect();
    let found = similar_fonts(&installed, "fira", 5);
    assert_eq!(found.len(), 2);
    assert!(found.contains(&String::from("Fira Code")));
    assert!(found.contains(&String::from("Fira Sans")));
    assert!(similar_fonts(&installed, "zzz", 5).is_empty());
    assert_eq!(similar_fonts(&installed, "fira", 1).len(), 1);
}
