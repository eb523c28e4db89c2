use znote::lists::sorted_unique;
use znote::models::{EntityKind, Entry, Timestamp};
use znote::order::{keep_all, rank_order};
use znote::web::{ListingKey, listing_order, matches_search, tag_list};

fn ts(s: i64) -> Timestamp {
    Timestamp { secs: s, nanos: 0 }
}

#[test]
fn rank_order_is_a_stable_sort() {
    let keys: Vec<String> = ["b", "a", "c", "a"].iter().map(|s| s.to_string()).collect();
    assert_eq!(rank_order(&keys, &keep_all(4)), vec![1, 3, 0, 2]);
    assert_eq!(rank_order(&keys, &vec![true, false, true, true]), vec![3, 0, 2]);
    let empty: Vec<String> = vec![];
    assert!(rank_order(&empty, &vec![]).is_empty());
}

#[test]
fn listings_put_starred_then_newest_first() {
    let keys = vec![
        ListingKey { starred: false, updated: ts(10) },
        ListingKey { starred: true, updated: ts(5) },
        ListingKey { starred: false, updated: ts(30) },
        ListingKey { starred: true, updated: ts(7) },
        ListingKey { starred: false, updated: ts(10) },
    ];
    assert_eq!(listing_order(&keys), vec![3, 1, 2, 0, 4]);
}

#[test]
fn newest_first_by_nanoseconds() {
    let keys = vec![
        ListingKey { starred: false, updated: Timestamp { secs: 1, nanos: 5 } },
        ListingKey { starred: false, updated: Timestamp { secs: 1, nanos: 9 } },
    ];
    assert_eq!(listing_order(&keys), vec![1, 0]);
}

fn entry(tags: &[&str]) -> Entry {
    Entry {
        kind: EntityKind::Note,
        id: "x".to_string(),
        title: "t".to_string(),
        tags: tags.iter().map(|s| s.to_string()).collect(),
        links: vec![],
    }
}

#[test]
fn tag_list_each_once_by_lower_case() {
    let es = vec![entry(&["#b", "#A"]), entry(&["#c", "#b"]), entry(&[])];
    assert_eq!(tag_list(&es), vec!["#A".to_string(), "#b".to_string(), "#c".to_string()]);
    assert!(tag_list(&vec![]).is_empty());
}

#[test]
fn note_search_matches_title_or_content() {
    assert!(matches_search("Rust notes", "", "Rust"));
    assert!(matches_search("x", "all about rust", "rust"));
    assert!(!matches_search("x", "y", "rust"));
    assert!(matches_search("x", "y", ""));
}

#[test]
fn sorted_unique_strings() {
    let v: Vec<String> = ["b", "a", "b", "c"].iter().map(|s| s.to_string()).collect();
    assert_eq!(sorted_unique(&v), vec!["a".to_string(), "b".to_string(), "c".to_string()]);
}
