use semdesk::distance::Distance;
use semdesk::search::{distance_of, hit_keys, merge_hits, unmatched_hits, ContentItem};
use semdesk::searcher::SearchResult as Hit;

fn row(id: u64, title: &str, text: &str, url: Option<&str>) -> ContentItem {
    ContentItem {
        id,
        title: title.to_string(),
        text: text.to_string(),
        source_name: "s".to_string(),
        source_url: url.map(|u| u.to_string()),
        created_at: "2024-01-01T00:00:00+00:00".to_string(),
    }
}

fn hit(key: u64, d: f32) -> Hit {
    Hit { key, distance: Distance::from_bits(d.to_bits()) }
}

fn dist(d: &Distance) -> f32 {
    f32::from_bits(d.to_bits())
}

#[test]
fn empty_search_returns_nothing() {
    let r = merge_hits(&vec![], &vec![]);
    assert!(r.is_empty());
}

#[test]
fn single_ingest_exact_match() {
    let hits = vec![hit(1, 0.01)];
    let rows = vec![row(1, "T", "the quick brown fox", None)];
    let r = merge_hits(&hits, &rows);
    assert_eq!(r.len(), 1);
    assert_eq!(r[0].key, 1);
    assert_eq!(r[0].title, "T");
    assert_eq!(r[0].text, "the quick brown fox");
    assert_eq!(r[0].url, None);
    assert!(dist(&r[0].distance) < 0.2);
}

#[test]
fn nearer_item_ranks_first() {
    let hits = vec![hit(2, 0.8), hit(1, 0.3)];
    let rows = vec![row(1, "A", "cats are mammals", None), row(2, "B", "SQL join semantics", None)];
    let r = merge_hits(&hits, &rows);
    assert_eq!(r.len(), 2);
    assert_eq!(r[0].key, 1);
    assert_eq!(r[1].key, 2);
    assert!(dist(&r[0].distance) < dist(&r[1].distance));
}

#[test]
fn distances_non_decreasing() {
    let hits = vec![hit(4, 0.9), hit(1, 0.2), hit(3, 0.5), hit(2, 0.2), hit(5, 0.0)];
    let rows = vec![
        row(3, "c", "c", None),
        row(5, "e", "e", Some("http://e")),
        row(1, "a", "a", None),
        row(4, "d", "d", None),
        row(2, "b", "b", None),
    ];
    let r = merge_hits(&hits, &rows);
    assert_eq!(r.len(), 5);
    for w in r.windows(2) {
        assert!(dist(&w[0].distance) <= dist(&w[1].distance));
    }
    let keys: Vec<u64> = r.iter().map(|x| x.key).collect();
    assert_eq!(keys, vec![5, 1, 2, 3, 4]);
    assert_eq!(r[0].url, Some("http://e".to_string()));
}

#[test]
fn equal_distances_break_ties_by_key() {
    let hits = vec![hit(9, 0.25), hit(3, 0.25), hit(6, 0.25)];
    let rows = vec![row(6, "x", "x", None), row(9, "y", "y", None), row(3, "z", "z", None)];
    let keys: Vec<u64> = merge_hits(&hits, &rows).iter().map(|x| x.key).collect();
    assert_eq!(keys, vec![3, 6, 9]);
}

#[test]
fn hit_without_row_is_dropped() {
    let hits = vec![hit(1, 0.1), hit(7, 0.05)];
    let rows = vec![row(1, "T", "t", None)];
    let r = merge_hits(&hits, &rows);
    assert_eq!(r.len(), 1);
    assert_eq!(r[0].key, 1);
}

#[test]
fn row_without_hit_is_dropped() {
    let hits = vec![hit(1, 0.1)];
    let rows = vec![row(1, "T", "t", None), row(2, "U", "u", None)];
    let r = merge_hits(&hits, &rows);
    assert_eq!(r.len(), 1);
    assert_eq!(r[0].key, 1);
}

#[test]
fn repeated_search_gives_same_answer() {
    let hits = vec![hit(2, 0.4), hit(1, 0.4), hit(3, 0.1)];
    let rows = vec![row(1, "a", "a", None), row(2, "b", "b", None), row(3, "c", "c", None)];
    let a: Vec<(u64, u32)> =
        merge_hits(&hits, &rows).iter().map(|x| (x.key, x.distance.to_bits())).collect();
    let b: Vec<(u64, u32)> =
        merge_hits(&hits, &rows).iter().map(|x| (x.key, x.distance.to_bits())).collect();
    assert_eq!(a, b);
    assert_eq!(a[0].0, 3);
}

#[test]
fn same_row_keeps_its_key_after_restart() {
    let rows = vec![row(1, "T", "the quick brown fox", None)];
    let first = merge_hits(&vec![hit(1, 0.3)], &rows);
    let again = merge_hits(&vec![hit(1, 0.3)], &rows);
    assert_eq!(first[0].key, 1);
    assert_eq!(again[0].key, 1);
    assert_eq!(again[0].text, "the quick brown fox");
}

#[test]
fn hit_keys_in_order() {
    let hits = vec![hit(4, 0.1), hit(2, 0.2)];
    assert_eq!(hit_keys(&hits), vec![4, 2]);
    assert!(hit_keys(&vec![]).is_empty());
}

#[test]
fn later_hit_for_a_key_wins() {
    let hits = vec![hit(1, 0.1), hit(1, 0.6)];
    let d = distance_of(&hits, 1).unwrap();
    assert_eq!(dist(&d), 0.6);
    assert!(distance_of(&hits, 2).is_none());
}

#[test]
fn hits_without_rows_are_reported() {
    let hits = vec![hit(1, 0.1), hit(7, 0.05), hit(3, 0.2)];
    let rows = vec![row(1, "T", "t", None)];
    assert_eq!(unmatched_hits(&hits, &rows), vec![7, 3]);
    assert!(unmatched_hits(&hits[..1].to_vec(), &rows).is_empty());
}
