//! The choice among the results of a title search at the movie database,
//! and the record of a movie assembled from the chosen result and its
//! localized details.

use std::collections::HashMap;
use vstd::prelude::*;
use vstd::string::StringExecFns;
use crate::genres::{resolve_genres, resolved_genres};

verus! {

/// The lower-case form that `str::to_lowercase` gives of `s` (Unicode case
/// mapping, independent of locale).
pub uninterp spec fn lowercase(s: Seq<char>) -> Seq<char>;

/// `str::to_lowercase`. Claims only that the result is `lowercase` of the
/// argument.
#[verifier::external_body]
fn to_lowercase(s: &str) -> (r: String)
    ensures
        r@ == lowercase(s@),
{
    s.to_lowercase()
}

/// One result of a title search, as far as the choice and the record read it.
pub struct SearchHit {
    /// The database's id of the movie.
    pub id: u64,
    pub title: String,
    pub original_title: String,
    pub overview: String,
    pub poster_path: Option<String>,
    /// Year of the release date, where the database knows one.
    pub release_year: Option<i32>,
    pub genre_ids: Vec<u64>,
}

/// The localized details of the chosen result, as far as the record reads
/// them.
pub struct Details {
    pub title: String,
    pub overview: String,
    pub poster_path: Option<String>,
    pub imdb_id: Option<String>,
}

/// What the library keeps of a movie found at the database (without the
/// poster image and the rating, which are carried alongside).
pub struct MovieInfo {
    pub title: String,
    pub original_title: Option<String>,
    pub year: i32,
    pub description: Option<String>,
    /// Where the poster image lies at the image service.
    pub poster_path: Option<String>,
    pub imdb_url: Option<String>,
    pub genres: Option<Vec<String>>,
}

/// The hit has the wanted title, ignoring case.
pub open spec fn same_title(hit: SearchHit, title: Seq<char>) -> bool {
    lowercase(hit.title@) == lowercase(title)
}

/// The hit was released in `year`; a hit without release date counts as
/// year 0.
pub open spec fn same_year(hit: SearchHit, year: i32) -> bool {
    match hit.release_year {
        Some(y) => y == year,
        None => year == 0,
    }
}

/// Index of the first hit from `from` on with the wanted title (and, where
/// `with_year`, the wanted year).
pub open spec fn first_match(
    hits: Seq<SearchHit>,
    title: Seq<char>,
    year: i32,
    with_year: bool,
    from: int,
) -> Option<int>
    decreases hits.len() - from,
{
    if from < 0 || from >= hits.len() {
        None
    } else if same_title(hits[from], title) && (!with_year || same_year(hits[from], year)) {
        Some(from)
    } else {
        first_match(hits, title, year, with_year, from + 1)
    }
}

/// The result a search settles on: the first with the wanted title and year,
/// else the first with the wanted title, else the first of all; `None` where
/// there is no result.
pub open spec fn chosen_hit(hits: Seq<SearchHit>, title: Seq<char>, year: i32) -> Option<int> {
    match first_match(hits, title, year, true, 0) {
        Some(i) => Some(i),
        None => match first_match(hits, title, year, false, 0) {
            Some(i) => Some(i),
            None => if hits.len() > 0 {
                Some(0)
            } else {
                None
            },
        },
    }
}

proof fn lemma_first_match_none(
    hits: Seq<SearchHit>,
    title: Seq<char>,
    year: i32,
    with_year: bool,
    from: int,
)
    requires
        0 <= from <= hits.len(),
        forall|j: int|
            from <= j < hits.len() ==> !(same_title(#[trigger] hits[j], title) && (!with_year
                || same_year(hits[j], year))),
    ensures
        first_match(hits, title, year, with_year, from) is None,
    decreases hits.len() - from,
{
    if from < hits.len() {
        lemma_first_match_none(hits, title, year, with_year, from + 1);
    }
}

proof fn lemma_first_match_some(
    hits: Seq<SearchHit>,
    title: Seq<char>,
    year: i32,
    with_year: bool,
    from: int,
    i: int,
)
    requires
        0 <= from <= i < hits.len(),
        forall|j: int|
            from <= j < i ==> !(same_title(#[trigger] hits[j], title) && (!with_year || same_year(
                hits[j],
                year,
            ))),
        same_title(hits[i], title) && (!with_year || same_year(hits[i], year)),
    ensures
        first_match(hits, title, year, with_year, from) == Some(i),
    decreases i - from,
{
    if from < i {
        lemma_first_match_some(hits, title, year, with_year, from + 1, i);
    }
}

/// Index of the first hit with the wanted title (and year, where
/// `with_year`).
fn find_match(
    hits: &Vec<SearchHit>,
    wanted: &String,
    wanted_lower: &String,
    year: i32,
    with_year: bool,
) -> (r: Option<usize>)
    requires
        wanted_lower@ == lowercase(wanted@),
    ensures
        match first_match(hits@, wanted@, year, with_year, 0) {
            Some(i) => r == Some(i as usize),
            None => r is None,
        },
{
    let n = hits.len();
    for i in 0..n
        invariant
            n == hits@.len(),
            wanted_lower@ == lowercase(wanted@),
            forall|j: int|
                0 <= j < i ==> !(same_title(#[trigger] hits@[j], wanted@) && (!with_year
                    || same_year(hits@[j], year))),
    {
        let hit = &hits[i];
        let lower = to_lowercase(hit.title.as_str());
        let title_ok = lower == *wanted_lower;
        let year_ok = match hit.release_year {
            Some(y) => y == year,
            None => year == 0,
        };
        if title_ok && (!with_year || year_ok) {
            proof {
                lemma_first_match_some(hits@, wanted@, year, with_year, 0, i as int);
            }
            return Some(i);
        }
    }
    proof {
        lemma_first_match_none(hits@, wanted@, year, with_year, 0);
    }
    None
}

/// Which search result a lookup of `title` released in `year` settles on:
/// the first with the same title ignoring case and the same year (a result
/// without release date counting as year 0), else the first with the same
/// title, else the first result; `None` where there is none.
pub fn choose_hit(hits: &Vec<SearchHit>, title: &str, year: i32) -> (r: Option<usize>)
    ensures
        match chosen_hit(hits@, title@, year) {
            Some(i) => r == Some(i as usize),
            None => r is None,
        },
{
    let wanted = String::from_str(title);
    let wanted_lower = to_lowercase(title);
    match find_match(hits, &wanted, &wanted_lower, year, true) {
        Some(i) => Some(i),
        None => match find_match(hits, &wanted, &wanted_lower, year, false) {
            Some(i) => Some(i),
            None => if hits.len() > 0 {
                Some(0)
            } else {
                None
            },
        },
    }
}

/// The address of the IMDb page of a title id.
pub open spec fn imdb_url_of(id: Seq<char>) -> Seq<char> {
    "https://www.imdb.com/title/"@ + id
}

/// The address of a poster image at the image service, in the width the
/// library keeps.
pub open spec fn image_url_of(poster_path: Seq<char>) -> Seq<char> {
    "https://image.tmdb.org/t/p/w500"@ + poster_path
}

/// The address from which the poster at `poster_path` is downloaded.
pub fn image_url(poster_path: &str) -> (r: String)
    ensures
        r@ == image_url_of(poster_path@),
{
    let mut url = String::from_str("https://image.tmdb.org/t/p/w500");
    url.append(poster_path);
    url
}

fn imdb_url(id: &str) -> (r: String)
    ensures
        r@ == imdb_url_of(id@),
{
    let mut url = String::from_str("https://www.imdb.com/title/");
    url.append(id);
    url
}

fn copy_string(s: &String) -> (r: String)
    ensures
        r@ == s@,
{
    s.clone()
}

/// The record of a movie whose lookup found nothing: the title and year
/// asked for, nothing else.
pub fn movie_not_found(title: &str, year: i32) -> (m: MovieInfo)
    ensures
        m.title@ == title@,
        m.year == year,
        m.original_title is None,
        m.description is None,
        m.poster_path is None,
        m.imdb_url is None,
        m.genres is None,
{
    MovieInfo {
        title: String::from_str(title),
        original_title: None,
        year,
        description: None,
        poster_path: None,
        imdb_url: None,
        genres: None,
    }
}

/// The record of the chosen search result `hit` for a lookup of a movie
/// released in `year`, with its localized `details` where they could be
/// had: details override the title, description and poster where they are
/// not empty, and an IMDb id that is not empty gives the IMDb address. The
/// year is the hit's release year, else the year asked for; the genres are
/// the hit's genre ids resolved in `genre_map`.
pub fn movie_from_hit(
    hit: &SearchHit,
    year: i32,
    details: Option<Details>,
    genre_map: &HashMap<u64, String>,
) -> (m: MovieInfo)
    ensures
        m.title@ == (match details {
            Some(d) => if d.title@.len() > 0 {
                d.title@
            } else {
                hit.title@
            },
            None => hit.title@,
        }),
        m.original_title matches Some(t) && t@ == hit.original_title@,
        m.year == (match hit.release_year {
            Some(y) => y,
            None => year,
        }),
        m.description matches Some(text) && text@ == (match details {
            Some(d) => if d.overview@.len() > 0 {
                d.overview@
            } else {
                hit.overview@
            },
            None => hit.overview@,
        }),
        match details {
            Some(Details { poster_path: Some(p), .. }) if p@.len() > 0 => m.poster_path matches Some(
                q,
            ) && q@ == p@,
            _ => match hit.poster_path {
                Some(p) => m.poster_path matches Some(q) && q@ == p@,
                None => m.poster_path is None,
            },
        },
        match details {
            Some(Details { imdb_id: Some(id), .. }) if id@.len() > 0 => m.imdb_url matches Some(
                u,
            ) && u@ == imdb_url_of(id@),
            _ => m.imdb_url is None,
        },
        match m.genres {
            Some(v) => resolved_genres(hit.genre_ids@, genre_map@) == Some(v@),
            None => resolved_genres(hit.genre_ids@, genre_map@) is None,
        },
{
    let movie_year = match hit.release_year {
        Some(y) => y,
        None => year,
    };
    let mut title = copy_string(&hit.title);
    let mut description = copy_string(&hit.overview);
    let mut poster_path = match &hit.poster_path {
        Some(p) => Some(copy_string(p)),
        None => None,
    };
    let mut imdb: Option<String> = None;
    match &details {
        Some(d) => {
            if !d.title.as_str().is_empty() {
                title = copy_string(&d.title);
            }
            if !d.overview.as_str().is_empty() {
                description = copy_string(&d.overview);
            }
            match &d.poster_path {
                Some(p) => {
                    if !p.as_str().is_empty() {
                        poster_path = Some(copy_string(p));
                    }
                },
                None => {},
            }
            match &d.imdb_id {
                Some(id) => {
                    if !id.as_str().is_empty() {
                        imdb = Some(imdb_url(id.as_str()));
                    }
                },
                None => {},
            }
        },
        None => {},
    }
    let genres = resolve_genres(hit.genre_ids.as_slice(), genre_map);
    MovieInfo {
        title,
        original_title: Some(copy_string(&hit.original_title)),
        year: movie_year,
        description: Some(description),
        poster_path,
        imdb_url: imdb,
        genres,
    }
}


proof fn lemma_first_match(
    hits: Seq<SearchHit>,
    title: Seq<char>,
    year: i32,
    with_year: bool,
    from: int,
)
    requires
        0 <= from,
    ensures
        match first_match(hits, title, year, with_year, from) {
            Some(i) => {
                &&& from <= i < hits.len()
                &&& same_title(hits[i], title) && (!with_year || same_year(hits[i], year))
                &&& forall|j: int|
                    from <= j < i ==> !(same_title(#[trigger] hits[j], title) && (!with_year
                        || same_year(hits[j], year)))
            },
            None => forall|j: int|
                from <= j < hits.len() ==> !(same_title(#[trigger] hits[j], title) && (!with_year
                    || same_year(hits[j], year))),
        },
    decreases hits.len() - from,
{
    if from < hits.len() {
        lemma_first_match(hits, title, year, with_year, from + 1);
    }
}

/// A search settles on a result exactly when there is one. Where some result
/// has the wanted title and year it settles on the first such; else on the
/// first with the wanted title; else on the first result. Where some result
/// has the wanted title, the chosen one has it.
pub proof fn lemma_chosen_hit(hits: Seq<SearchHit>, title: Seq<char>, year: i32)
    ensures
        chosen_hit(hits, title, year) is Some <==> hits.len() > 0,
        chosen_hit(hits, title, year) matches Some(i) ==> 0 <= i < hits.len(),
        (exists|j: int|
            0 <= j < hits.len() && same_title(hits[j], title) && same_year(#[trigger] hits[j], year))
            ==> (chosen_hit(hits, title, year) matches Some(i) && same_title(hits[i], title)
            && same_year(hits[i], year) && forall|j: int|
            0 <= j < i ==> !(same_title(#[trigger] hits[j], title) && same_year(hits[j], year))),
        (exists|j: int| 0 <= j < hits.len() && same_title(#[trigger] hits[j], title))
            ==> (chosen_hit(hits, title, year) matches Some(i) && same_title(hits[i], title)),
        (forall|j: int|
            0 <= j < hits.len() ==> !(same_title(#[trigger] hits[j], title) && same_year(
                hits[j],
                year,
            ))) ==> match chosen_hit(hits, title, year) {
            Some(i) => (same_title(hits[i], title) && forall|j: int|
                0 <= j < i ==> !same_title(#[trigger] hits[j], title)) || (i == 0 && forall|j: int|
                0 <= j < hits.len() ==> !same_title(#[trigger] hits[j], title)),
            None => hits.len() == 0,
        },
{
    lemma_first_match(hits, title, year, true, 0);
    lemma_first_match(hits, title, year, false, 0);
}


/// A title search at the movie database.
pub struct SearchQuery {
    pub query: String,
    /// Language of the titles searched and returned.
    pub language: String,
    pub include_adult: bool,
}

/// The search a lookup of `title` makes: the title as given, in English,
/// adult titles included.
pub fn search_query(title: &str) -> (q: SearchQuery)
    ensures
        q.query@ == title@,
        q.language@ == "en"@,
        q.include_adult,
{
    SearchQuery {
        query: String::from_str(title),
        language: String::from_str("en"),
        include_adult: true,
    }
}

/// A request for the details of one movie.
pub struct DetailsQuery {
    pub movie_id: u64,
    /// Language of the details.
    pub language: String,
}

/// The details request for the chosen result: its id, in German.
pub fn details_query(hit: &SearchHit) -> (q: DetailsQuery)
    ensures
        q.movie_id == hit.id,
        q.language@ == "de"@,
{
    DetailsQuery { movie_id: hit.id, language: String::from_str("de") }
}


/// Dated results decide by their release year: where some result has the
/// wanted title and was released in the wanted year, the chosen result has
/// the wanted title and was released in that year, unless the year wanted is
/// 0, where an undated result counts as released then; a result without
/// release date never stands in for another year. No earlier result has the
/// wanted title and that year.
pub proof fn lemma_chosen_hit_release_year(hits: Seq<SearchHit>, title: Seq<char>, year: i32)
    ensures
        (exists|j: int|
            0 <= j < hits.len() && same_title(hits[j], title) && #[trigger] hits[j].release_year
                == Some(year)) ==> (chosen_hit(hits, title, year) matches Some(i) && same_title(
            hits[i],
            title,
        ) && (year != 0 ==> hits[i].release_year == Some(year)) && (year == 0
            ==> hits[i].release_year == Some(0i32) || hits[i].release_year is None)
            && forall|j: int|
            0 <= j < i ==> !(same_title(hits[j], title) && #[trigger] hits[j].release_year == Some(
                year,
            ))),
{
    lemma_chosen_hit(hits, title, year);
    if exists|j: int|
        0 <= j < hits.len() && same_title(hits[j], title) && #[trigger] hits[j].release_year
            == Some(year) {
        let j = choose|j: int|
            0 <= j < hits.len() && same_title(hits[j], title) && #[trigger] hits[j].release_year
                == Some(year);
        assert(same_year(hits[j], year));
        let i = chosen_hit(hits, title, year)->0;
        assert forall|k: int|
            0 <= k < i implies !(same_title(hits[k], title) && #[trigger] hits[k].release_year
            == Some(year)) by {
            if same_title(hits[k], title) && hits[k].release_year == Some(year) {
                assert(same_year(hits[k], year));
            }
        }
    }
}

/// `m` is the record of a lookup of `title` released in `year` that found
/// nothing.
pub open spec fn is_not_found_record(m: MovieInfo, title: Seq<char>, year: i32) -> bool {
    &&& m.title@ == title
    &&& m.year == year
    &&& m.original_title is None
    &&& m.description is None
    &&& m.poster_path is None
    &&& m.imdb_url is None
    &&& m.genres is None
}

/// What a lookup does once its title search has answered.
pub enum SearchStep {
    /// Ask for the details of the result at this index.
    Chosen(usize),
    /// Nothing was found: this is the record.
    NotFound(MovieInfo),
}

/// The step after the title search of a lookup of `title` released in
/// `year`: where the search failed or settled on no result, the record of a
/// movie not found; else the result it settles on, whose details are asked
/// for next.
pub fn after_search<E>(title: &str, year: i32, found: &Result<Vec<SearchHit>, E>) -> (step: SearchStep)
    ensures
        match found {
            Ok(hits) => match chosen_hit(hits@, title@, year) {
                Some(i) => step == SearchStep::Chosen(i as usize),
                None => step matches SearchStep::NotFound(m) && is_not_found_record(m, title@, year),
            },
            Err(_) => step matches SearchStep::NotFound(m) && is_not_found_record(m, title@, year),
        },
{
    match found {
        Ok(hits) => match choose_hit(hits, title, year) {
            Some(i) => SearchStep::Chosen(i),
            None => SearchStep::NotFound(movie_not_found(title, year)),
        },
        Err(_) => SearchStep::NotFound(movie_not_found(title, year)),
    }
}

/// The poster a record asks to download: its poster path, where it has one.
pub fn poster_to_download(info: &MovieInfo) -> (r: Option<String>)
    ensures
        match info.poster_path {
            Some(p) => r matches Some(q) && q@ == p@,
            None => r is None,
        },
{
    match &info.poster_path {
        Some(p) => Some(copy_string(p)),
        None => None,
    }
}

} // verus!
