use gtmov::genres::{genre_list_query, genre_map, genre_map_from, join_genres, resolve_genres};
use std::collections::HashMap;

fn names() -> HashMap<u64, String> {
    let mut m = HashMap::new();
    m.insert(28, "Action".to_string());
    m.insert(35, "Comedy".to_string());
    m.insert(18, "Drama".to_string());
    m
}

#[test]
fn resolves_known_ids_in_order() {
    assert_eq!(
        resolve_genres(&[18, 99, 28], &names()),
        Some(vec!["Drama".to_string(), "Action".to_string()])
    );
}

#[test]
fn no_ids_means_no_genres() {
    assert_eq!(resolve_genres(&[], &names()), None);
}

#[test]
fn only_unknown_ids_means_no_genres() {
    assert_eq!(resolve_genres(&[1, 2], &names()), None);
}

#[test]
fn repeated_ids_repeat_names() {
    assert_eq!(
        resolve_genres(&[35, 35], &names()),
        Some(vec!["Comedy".to_string(), "Comedy".to_string()])
    );
}

#[test]
fn later_entries_override_earlier() {
    let m = genre_map(vec![(1, "A".to_string()), (2, "B".to_string()), (1, "C".to_string())]);
    assert_eq!(m.len(), 2);
    assert_eq!(m.get(&1), Some(&"C".to_string()));
    assert_eq!(m.get(&2), Some(&"B".to_string()));
}

#[test]
fn failed_lookup_gives_no_genres() {
    let m = genre_map_from::<&str>(Err("offline"));
    assert!(m.is_empty());
    let m = genre_map_from::<&str>(Ok(vec![(5, "War".to_string())]));
    assert_eq!(m.get(&5), Some(&"War".to_string()));
}

#[test]
fn joins_genre_names() {
    assert_eq!(
        join_genres(&Some(vec!["Drama".to_string(), "Action".to_string()])),
        Some("Drama, Action".to_string())
    );
    assert_eq!(join_genres(&Some(vec!["Drama".to_string()])), Some("Drama".to_string()));
    assert_eq!(join_genres(&None), None);
}

#[test]
fn genre_names_in_german() {
    assert_eq!(genre_list_query().language, "de");
}

#[test]
fn more_known_genres_lose_none() {
    let small = names();
    let mut large = names();
    large.insert(99, "Documentary".to_string());
    let ids = [99, 18, 5];
    assert_eq!(resolve_genres(&ids, &small), Some(vec!["Drama".to_string()]));
    assert_eq!(
        resolve_genres(&ids, &large),
        Some(vec!["Documentary".to_string(), "Drama".to_string()])
    );
}
