use gtmov::movie::{
    after_search, choose_hit, details_query, image_url, movie_from_hit, movie_not_found,
    poster_to_download, search_query, Details, SearchHit, SearchStep,
};
use std::collections::HashMap;

fn hit(title: &str, year: Option<i32>) -> SearchHit {
    SearchHit {
        id: 42,
        title: title.to_string(),
        original_title: format!("{} (original)", title),
        overview: format!("About {}", title),
        poster_path: Some(format!("/{}.jpg", title.len())),
        release_year: year,
        genre_ids: vec![18, 7],
    }
}

#[test]
fn prefers_same_title_and_year() {
    let hits = vec![hit("Dune", Some(1984)), hit("Dune", Some(2021)), hit("Dune Drifter", Some(2020))];
    assert_eq!(choose_hit(&hits, "dune", 2021), Some(1));
}

#[test]
fn falls_back_to_same_title() {
    let hits = vec![hit("Other", Some(2021)), hit("DUNE", Some(1984))];
    assert_eq!(choose_hit(&hits, "Dune", 2021), Some(1));
}

#[test]
fn falls_back_to_first_result() {
    let hits = vec![hit("Other", Some(2021)), hit("Another", None)];
    assert_eq!(choose_hit(&hits, "Dune", 2021), Some(0));
}

#[test]
fn no_results_no_choice() {
    assert_eq!(choose_hit(&Vec::new(), "Dune", 2021), None);
}

#[test]
fn missing_release_date_counts_as_year_zero() {
    let hits = vec![hit("X", Some(5)), hit("x", None)];
    assert_eq!(choose_hit(&hits, "X", 0), Some(1));
}

#[test]
fn case_folding_is_unicode() {
    let hits = vec![hit("Other", None), hit("ÉTÉ", Some(2000))];
    assert_eq!(choose_hit(&hits, "été", 2000), Some(1));
}

fn genre_names() -> HashMap<u64, String> {
    let mut m = HashMap::new();
    m.insert(18, "Drama".to_string());
    m
}

#[test]
fn record_without_details() {
    let h = hit("Dune", None);
    let m = movie_from_hit(&h, 2021, None, &genre_names());
    assert_eq!(m.title, "Dune");
    assert_eq!(m.original_title, Some("Dune (original)".to_string()));
    assert_eq!(m.year, 2021);
    assert_eq!(m.description, Some("About Dune".to_string()));
    assert_eq!(m.poster_path, Some("/4.jpg".to_string()));
    assert_eq!(m.imdb_url, None);
    assert_eq!(m.genres, Some(vec!["Drama".to_string()]));
}

#[test]
fn details_override_what_they_have() {
    let h = hit("Dune", Some(1984));
    let d = Details {
        title: "Der Wüstenplanet".to_string(),
        overview: String::new(),
        poster_path: Some("/de.jpg".to_string()),
        imdb_id: Some("tt0087182".to_string()),
    };
    let m = movie_from_hit(&h, 2021, Some(d), &genre_names());
    assert_eq!(m.title, "Der Wüstenplanet");
    assert_eq!(m.year, 1984);
    assert_eq!(m.description, Some("About Dune".to_string()));
    assert_eq!(m.poster_path, Some("/de.jpg".to_string()));
    assert_eq!(m.imdb_url, Some("https://www.imdb.com/title/tt0087182".to_string()));
}

#[test]
fn empty_details_change_nothing() {
    let h = hit("Dune", Some(1984));
    let d = Details {
        title: String::new(),
        overview: "Neu".to_string(),
        poster_path: Some(String::new()),
        imdb_id: Some(String::new()),
    };
    let m = movie_from_hit(&h, 1984, Some(d), &HashMap::new());
    assert_eq!(m.title, "Dune");
    assert_eq!(m.description, Some("Neu".to_string()));
    assert_eq!(m.poster_path, Some("/4.jpg".to_string()));
    assert_eq!(m.imdb_url, None);
    assert_eq!(m.genres, None);
}

#[test]
fn not_found_keeps_the_request() {
    let m = movie_not_found("Unknown Film", 1999);
    assert_eq!(m.title, "Unknown Film");
    assert_eq!(m.year, 1999);
    assert!(m.original_title.is_none() && m.description.is_none() && m.poster_path.is_none());
    assert!(m.imdb_url.is_none() && m.genres.is_none());
}

#[test]
fn poster_address() {
    assert_eq!(image_url("/abc.jpg"), "https://image.tmdb.org/t/p/w500/abc.jpg");
}

#[test]
fn lookup_requests() {
    let q = search_query("Dune");
    assert_eq!(q.query, "Dune");
    assert_eq!(q.language, "en");
    assert!(q.include_adult);
    let d = details_query(&hit("Dune", None));
    assert_eq!(d.movie_id, 42);
    assert_eq!(d.language, "de");
}

#[test]
fn step_after_the_search() {
    let hits: Result<Vec<SearchHit>, String> = Ok(vec![hit("Other", None), hit("Dune", Some(2021))]);
    assert!(matches!(after_search("dune", 2021, &hits), SearchStep::Chosen(1)));
    let none: Result<Vec<SearchHit>, String> = Ok(Vec::new());
    match after_search("Dune", 2021, &none) {
        SearchStep::NotFound(m) => assert_eq!((m.title.as_str(), m.year), ("Dune", 2021)),
        _ => panic!("expected not found"),
    }
    let failed: Result<Vec<SearchHit>, String> = Err("timeout".to_string());
    match after_search("Dune", 1984, &failed) {
        SearchStep::NotFound(m) => {
            assert_eq!((m.title.as_str(), m.year), ("Dune", 1984));
            assert!(m.poster_path.is_none() && m.genres.is_none());
        }
        _ => panic!("expected not found"),
    }
}

#[test]
fn poster_only_where_there_is_one() {
    let with = movie_from_hit(&hit("Dune", None), 2021, None, &HashMap::new());
    assert_eq!(poster_to_download(&with), Some("/4.jpg".to_string()));
    assert_eq!(poster_to_download(&movie_not_found("X", 1)), None);
}
