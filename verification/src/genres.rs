//! Genre names: the map from genre ids to names that the movie database
//! hands out, and the names of a movie's genre ids.

use std::collections::HashMap;
use vstd::prelude::*;
use vstd::string::StringExecFns;

verus! {

broadcast use vstd::std_specs::hash::group_hash_axioms;

/// The names of the ids in `ids` that `names` knows, in the order of `ids`;
/// ids that it does not know are passed over.
pub open spec fn known_names(ids: Seq<u64>, names: Map<u64, String>) -> Seq<String>
    decreases ids.len(),
{
    if ids.len() == 0 {
        Seq::empty()
    } else {
        known_names(ids.drop_last(), names) + if names.contains_key(ids.last()) {
            seq![names[ids.last()]]
        } else {
            Seq::empty()
        }
    }
}

/// The genres of a movie: `None` where it has no genre ids or none of them
/// is known, else the known names in order.
pub open spec fn resolved_genres(ids: Seq<u64>, names: Map<u64, String>) -> Option<Seq<String>> {
    if ids.len() == 0 || known_names(ids, names).len() == 0 {
        None
    } else {
        Some(known_names(ids, names))
    }
}

/// The names of the genre ids `ids` that `genre_map` knows, in the order of
/// `ids`; `None` where `ids` is empty or no id is known.
pub fn resolve_genres(ids: &[u64], genre_map: &HashMap<u64, String>) -> (r: Option<Vec<String>>)
    ensures
        match r {
            Some(v) => resolved_genres(ids@, genre_map@) == Some(v@),
            None => resolved_genres(ids@, genre_map@) is None,
        },
{
    if ids.len() == 0 {
        return None;
    }
    let mut names: Vec<String> = Vec::new();
    let n = ids.len();
    for i in 0..n
        invariant
            n == ids@.len(),
            names@ == known_names(ids@.take(i as int), genre_map@),
    {
        let id = ids[i];
        assert(ids@.take(i + 1).drop_last() =~= ids@.take(i as int));
        assert(ids@.take(i + 1).last() == id);
        match genre_map.get(&id) {
            Some(name) => {
                names.push(name.clone());
            },
            None => {},
        }
        assert(names@ =~= known_names(ids@.take(i + 1), genre_map@));
    }
    assert(ids@.take(n as int) =~= ids@);
    if names.len() == 0 {
        None
    } else {
        Some(names)
    }
}

/// The map that inserting the pairs of `pairs` in order builds: a later pair
/// overrides an earlier one with the same id.
pub open spec fn map_of_pairs(pairs: Seq<(u64, String)>) -> Map<u64, String>
    decreases pairs.len(),
{
    if pairs.len() == 0 {
        Map::empty()
    } else {
        map_of_pairs(pairs.drop_last()).insert(pairs.last().0, pairs.last().1)
    }
}

/// The genre map of a genre list, later entries overriding earlier ones with
/// the same id (`collect` into a `HashMap`).
pub fn genre_map(pairs: Vec<(u64, String)>) -> (m: HashMap<u64, String>)
    ensures
        m@ == map_of_pairs(pairs@),
{
    let mut m: HashMap<u64, String> = HashMap::new();
    let n = pairs.len();
    let mut i: usize = 0;
    while i < n
        invariant
            n == pairs@.len(),
            i <= n,
            m@ == map_of_pairs(pairs@.take(i as int)),
        decreases n - i,
    {
        let id = pairs[i].0;
        let name = pairs[i].1.clone();
        assert(pairs@.take(i + 1).drop_last() =~= pairs@.take(i as int));
        m.insert(id, name);
        i += 1;
    }
    assert(pairs@.take(n as int) =~= pairs@);
    m
}


/// The genre map of a genre lookup: its pairs where it succeeded, no genre
/// at all where it failed.
pub fn genre_map_from<E>(lookup: Result<Vec<(u64, String)>, E>) -> (m: HashMap<u64, String>)
    ensures
        match lookup {
            Ok(pairs) => m@ == map_of_pairs(pairs@),
            Err(_) => m@ == Map::<u64, String>::empty(),
        },
{
    match lookup {
        Ok(pairs) => genre_map(pairs),
        Err(_) => HashMap::new(),
    }
}

/// The views of `strings`, joined with `sep` between neighbours.
pub open spec fn joined(strings: Seq<String>, sep: Seq<char>) -> Seq<char>
    decreases strings.len(),
{
    if strings.len() == 0 {
        Seq::empty()
    } else if strings.len() == 1 {
        strings[0]@
    } else {
        joined(strings.drop_last(), sep) + sep + strings.last()@
    }
}

/// The genre names of a movie as one text, separated by `", "`.
pub fn join_genres(genres: &Option<Vec<String>>) -> (r: Option<String>)
    ensures
        match (genres, r) {
            (Some(v), Some(s)) => s@ == joined(v@, seq![',', ' ']),
            (None, None) => true,
            _ => false,
        },
{
    match genres {
        None => None,
        Some(names) => {
            let sep = ", ";
            proof {
                reveal_strlit(", ");
            }
            let mut out = String::new();
            let n = names.len();
            for i in 0..n
                invariant
                    n == names@.len(),
                    sep@ == seq![',', ' '],
                    out@ == joined(names@.take(i as int), sep@),
            {
                if i > 0 {
                    out.append(sep);
                }
                out.append(names[i].as_str());
                assert(names@.take(i + 1).drop_last() =~= names@.take(i as int));
            }
            assert(names@.take(n as int) =~= names@);
            Some(out)
        },
    }
}


proof fn lemma_known_names(ids: Seq<u64>, names: Map<u64, String>)
    ensures
        known_names(ids, names).len() <= ids.len(),
        forall|k: int|
            0 <= k < known_names(ids, names).len() ==> exists|i: int|
                0 <= i < ids.len() && names.contains_key(ids[i]) && #[trigger] known_names(
                    ids,
                    names,
                )[k] == names[ids[i]],
        known_names(ids, names).len() == 0 <==> forall|i: int|
            0 <= i < ids.len() ==> !names.contains_key(#[trigger] ids[i]),
    decreases ids.len(),
{
    if ids.len() > 0 {
        let p = ids.drop_last();
        lemma_known_names(p, names);
        let head = known_names(p, names);
        let all = known_names(ids, names);
        assert forall|k: int| 0 <= k < all.len() implies exists|i: int|
            0 <= i < ids.len() && names.contains_key(ids[i]) && #[trigger] all[k]
                == names[ids[i]] by {
            if k < head.len() {
                assert(all[k] == head[k]);
                let i = choose|i: int|
                    0 <= i < p.len() && names.contains_key(p[i]) && #[trigger] head[k]
                        == names[p[i]];
                assert(ids[i] == p[i]);
            } else {
                assert(all[k] == names[ids[ids.len() - 1]]);
            }
        }
        if all.len() == 0 {
            assert forall|i: int| 0 <= i < ids.len() implies !names.contains_key(
                #[trigger] ids[i],
            ) by {
                if i < p.len() {
                    assert(ids[i] == p[i]);
                }
            }
        } else if head.len() == 0 {
            assert(names.contains_key(ids[ids.len() - 1]));
        } else {
            let i = choose|i: int| 0 <= i < p.len() && names.contains_key(#[trigger] p[i]);
            assert(ids[i] == p[i]);
        }
    }
}

/// Every genre a movie gets is the name of one of its genre ids, there are
/// no more genres than ids, and a movie gets no genres exactly when none of
/// its ids is known.
pub proof fn lemma_resolved_genres(ids: Seq<u64>, names: Map<u64, String>)
    ensures
        resolved_genres(ids, names) matches Some(v) ==> {
            &&& 0 < v.len() <= ids.len()
            &&& forall|k: int|
                0 <= k < v.len() ==> exists|i: int|
                    0 <= i < ids.len() && names.contains_key(ids[i]) && #[trigger] v[k]
                        == names[ids[i]]
        },
        resolved_genres(ids, names) is None <==> forall|i: int|
            0 <= i < ids.len() ==> !names.contains_key(#[trigger] ids[i]),
{
    lemma_known_names(ids, names);
}

/// The genre map knows exactly the ids of the list, and names each after the
/// last entry of the list with that id.
pub proof fn lemma_map_of_pairs(pairs: Seq<(u64, String)>)
    ensures
        forall|id: u64|
            #[trigger] map_of_pairs(pairs).contains_key(id) <==> exists|i: int|
                0 <= i < pairs.len() && pairs[i].0 == id,
        forall|i: int|
            0 <= i < pairs.len() && (forall|j: int| i < j < pairs.len() ==> pairs[j].0 != pairs[i].0)
                ==> #[trigger] map_of_pairs(pairs)[pairs[i].0] == pairs[i].1,
    decreases pairs.len(),
{
    if pairs.len() > 0 {
        let p = pairs.drop_last();
        lemma_map_of_pairs(p);
        let m = map_of_pairs(pairs);
        assert forall|id: u64| #[trigger] m.contains_key(id) <==> exists|i: int|
            0 <= i < pairs.len() && pairs[i].0 == id by {
            if m.contains_key(id) && id != pairs.last().0 {
                assert(map_of_pairs(p).contains_key(id));
                let i = choose|i: int| 0 <= i < p.len() && p[i].0 == id;
                assert(pairs[i] == p[i]);
                assert(0 <= i < pairs.len() && pairs[i].0 == id);
            }
            if exists|i: int| 0 <= i < pairs.len() && pairs[i].0 == id {
                let i = choose|i: int| 0 <= i < pairs.len() && pairs[i].0 == id;
                if i < p.len() {
                    assert(p[i] == pairs[i]);
                    assert(map_of_pairs(p).contains_key(id));
                }
            }
        }
        assert forall|i: int|
            0 <= i < pairs.len() && (forall|j: int|
                i < j < pairs.len() ==> pairs[j].0 != pairs[i].0) implies #[trigger] m[pairs[i].0]
            == pairs[i].1 by {
            if i < p.len() {
                assert(p[i] == pairs[i]);
                assert(pairs[pairs.len() - 1].0 != pairs[i].0);
                assert forall|j: int| i < j < p.len() implies p[j].0 != p[i].0 by {
                    assert(p[j] == pairs[j]);
                }
                assert(map_of_pairs(p)[p[i].0] == p[i].1);
            }
        }
    }
}


/// `a` is `b` with some entries left out: the entries of `a` stand in `b`
/// in the same order.
pub open spec fn is_subsequence<A>(a: Seq<A>, b: Seq<A>) -> bool {
    exists|pos: spec_fn(int) -> int| #[trigger] places_in_order(a, b, pos)
}

/// `pos` places each entry of `a` at an equal entry of `b`, keeping the order.
pub open spec fn places_in_order<A>(a: Seq<A>, b: Seq<A>, pos: spec_fn(int) -> int) -> bool {
    &&& forall|i: int, j: int| 0 <= i < j < a.len() ==> #[trigger] pos(i) < #[trigger] pos(j)
    &&& forall|i: int| 0 <= i < a.len() ==> 0 <= #[trigger] pos(i) < b.len() && a[i] == b[pos(i)]
}

/// The genres of a lookup as a list, empty for none.
pub open spec fn genre_list(genres: Option<Seq<String>>) -> Seq<String> {
    match genres {
        Some(v) => v,
        None => Seq::empty(),
    }
}

proof fn lemma_known_names_grow(ids: Seq<u64>, small: Map<u64, String>, large: Map<u64, String>)
    requires
        forall|k: u64| #[trigger] small.contains_key(k) ==> large.contains_key(k) && large[k] == small[k],
    ensures
        is_subsequence(known_names(ids, small), known_names(ids, large)),
    decreases ids.len(),
{
    let a = known_names(ids, small);
    let b = known_names(ids, large);
    if ids.len() == 0 {
        let pos = |i: int| i;
        assert(places_in_order(a, b, pos));
    } else {
        let p = ids.drop_last();
        lemma_known_names_grow(p, small, large);
        let a0 = known_names(p, small);
        let b0 = known_names(p, large);
        let f = choose|pos: spec_fn(int) -> int| #[trigger] places_in_order(a0, b0, pos);
        let k = ids.last();
        let g = |i: int| if i < a0.len() { f(i) } else { b.len() - 1 };
        assert forall|i: int, j: int| 0 <= i < j < a.len() implies #[trigger] g(i) < #[trigger] g(j) by {
            if j < a0.len() {
                assert(f(i) < f(j));
            } else {
                assert(0 <= f(i) < b0.len());
            }
        }
        assert forall|i: int| 0 <= i < a.len() implies 0 <= #[trigger] g(i) < b.len() && a[i] == b[g(i)] by {
            if i < a0.len() {
                assert(0 <= f(i) < b0.len() && a0[i] == b0[f(i)]);
                assert(a[i] == a0[i]);
                assert(b[f(i)] == b0[f(i)]);
            } else {
                assert(small.contains_key(k));
            }
        }
        assert(places_in_order(a, b, g));
    }
}

/// With more genres known, a movie loses none: the genres resolved in a map
/// that extends another are those resolved in the smaller map with perhaps
/// some added, in the same order; a movie that has genres in the smaller map
/// has genres in the larger.
pub proof fn lemma_resolved_genres_grow(ids: Seq<u64>, small: Map<u64, String>, large: Map<u64, String>)
    requires
        forall|k: u64| #[trigger] small.contains_key(k) ==> large.contains_key(k) && large[k] == small[k],
    ensures
        is_subsequence(
            genre_list(resolved_genres(ids, small)),
            genre_list(resolved_genres(ids, large)),
        ),
        resolved_genres(ids, small) is Some ==> resolved_genres(ids, large) is Some,
{
    lemma_known_names_grow(ids, small, large);
    lemma_known_names(ids, small);
    lemma_known_names(ids, large);
    let a = known_names(ids, small);
    let b = known_names(ids, large);
    assert(genre_list(resolved_genres(ids, small)) == a);
    assert(genre_list(resolved_genres(ids, large)) == b);
    if resolved_genres(ids, small) is Some {
        let f = choose|pos: spec_fn(int) -> int| #[trigger] places_in_order(a, b, pos);
        assert(0 <= f(0) < b.len());
    }
}

/// Where the `k`-th name starts in the names joined with `sep`: after the
/// earlier names, each followed by one separator.
pub open spec fn name_start(strings: Seq<String>, sep: Seq<char>, k: int) -> int
    decreases k,
{
    if k <= 0 {
        0
    } else {
        name_start(strings, sep, k - 1) + strings[k - 1]@.len() + sep.len()
    }
}

proof fn lemma_name_start_prefix(strings: Seq<String>, sep: Seq<char>, k: int)
    requires
        0 <= k < strings.len(),
    ensures
        name_start(strings.drop_last(), sep, k) == name_start(strings, sep, k),
    decreases k,
{
    if k > 0 {
        lemma_name_start_prefix(strings, sep, k - 1);
        assert(strings.drop_last()[k - 1] == strings[k - 1]);
    }
}

proof fn lemma_name_start_grows(strings: Seq<String>, sep: Seq<char>, k: int, l: int)
    requires
        0 <= k <= l <= strings.len(),
    ensures
        name_start(strings, sep, k) + if k < l {
            strings[k]@.len() + sep.len()
        } else {
            0
        } <= name_start(strings, sep, l),
    decreases l - k,
{
    if k < l {
        lemma_name_start_grows(strings, sep, k, l - 1);
    }
}

/// Names joined with a separator lay out as the names themselves, in order,
/// with one separator between neighbours and nowhere else: the text is as
/// long as the names and the separators together, each name stands whole at
/// its place, and the separator stands just before every name but the first.
pub proof fn lemma_joined_layout(strings: Seq<String>, sep: Seq<char>)
    ensures
        strings.len() > 0 ==> joined(strings, sep).len() == name_start(
            strings,
            sep,
            strings.len() - 1,
        ) + strings.last()@.len(),
        forall|k: int|
            0 <= k < strings.len() ==> #[trigger] joined(strings, sep).subrange(
                name_start(strings, sep, k),
                name_start(strings, sep, k) + strings[k]@.len(),
            ) == strings[k]@,
        forall|k: int|
            0 < k < strings.len() ==> #[trigger] joined(strings, sep).subrange(
                name_start(strings, sep, k) - sep.len(),
                name_start(strings, sep, k),
            ) == sep,
    decreases strings.len(),
{
    let n = strings.len() as int;
    if n >= 2 {
        let p = strings.drop_last();
        lemma_joined_layout(p, sep);
        let jp = joined(p, sep);
        let j = joined(strings, sep);
        assert(j == jp + sep + strings.last()@);
        lemma_name_start_prefix(strings, sep, n - 2);
        lemma_name_start_prefix(strings, sep, n - 1);
        assert(p.last() == strings[n - 2]);
        assert(jp.len() == name_start(strings, sep, n - 2) + strings[n - 2]@.len());
        assert(name_start(strings, sep, n - 1) == jp.len() + sep.len());
        assert forall|k: int| 0 <= k < n implies #[trigger] j.subrange(
            name_start(strings, sep, k),
            name_start(strings, sep, k) + strings[k]@.len(),
        ) == strings[k]@ by {
            if k < n - 1 {
                lemma_name_start_prefix(strings, sep, k);
                assert(p[k] == strings[k]);
                lemma_name_start_grows(strings, sep, k, n - 2);
                lemma_name_start_grows(strings, sep, 0, k);
                assert(0 <= name_start(strings, sep, k));
                assert(name_start(strings, sep, k) + strings[k]@.len() <= jp.len());
                assert(jp.subrange(name_start(p, sep, k), name_start(p, sep, k) + p[k]@.len())
                    == p[k]@);
                assert(j.subrange(
                    name_start(strings, sep, k),
                    name_start(strings, sep, k) + strings[k]@.len(),
                ) =~= jp.subrange(
                    name_start(strings, sep, k),
                    name_start(strings, sep, k) + strings[k]@.len(),
                ));
            } else {
                lemma_name_start_grows(strings, sep, 0, k);
                assert(j.subrange(
                    name_start(strings, sep, k),
                    name_start(strings, sep, k) + strings[k]@.len(),
                ) =~= strings[k]@);
            }
        }
        assert forall|k: int| 0 < k < n implies #[trigger] j.subrange(
            name_start(strings, sep, k) - sep.len(),
            name_start(strings, sep, k),
        ) == sep by {
            if k < n - 1 {
                lemma_name_start_prefix(strings, sep, k);
                lemma_name_start_grows(strings, sep, k, n - 2);
                lemma_name_start_grows(strings, sep, 0, k - 1);
                assert(name_start(strings, sep, k) >= sep.len());
                assert(name_start(strings, sep, k) <= jp.len());
                assert(jp.subrange(name_start(p, sep, k) - sep.len(), name_start(p, sep, k))
                    == sep);
                assert(j.subrange(name_start(strings, sep, k) - sep.len(), name_start(strings, sep, k))
                    =~= jp.subrange(name_start(strings, sep, k) - sep.len(), name_start(strings, sep, k)));
            } else {
                assert(j.subrange(name_start(strings, sep, k) - sep.len(), name_start(strings, sep, k))
                    =~= sep);
            }
        }
    } else if n == 1 {
        assert(joined(strings, sep).subrange(0, strings[0]@.len() as int) =~= strings[0]@);
    }
}

/// A request for the genre list of movies.
pub struct GenreListQuery {
    /// Language of the genre names.
    pub language: String,
}

/// The genre list a scan asks for: the names in German, the locale of the
/// library.
pub fn genre_list_query() -> (q: GenreListQuery)
    ensures
        q.language@ == "de"@,
{
    GenreListQuery { language: String::from_str("de") }
}

} // verus!
