use vstd::prelude::*;
use dashmap::DashMap;
use crate::song::{Song, SongView, views};

verus! {

#[verifier::external_type_specification]
#[verifier::external_body]
#[verifier::reject_recursive_types(K)]
#[verifier::reject_recursive_types(V)]
#[verifier::reject_recursive_types(S)]
pub struct ExDashMap<K, V, S>(DashMap<K, V, S>);

/// The songs held by a genre-sharded map: genre key, then id, then record.
pub uninterp spec fn shelf_of(m: DashMap<String, DashMap<usize, Song>>) -> Map<Seq<char>, Map<usize, SongView>>;

/// The search results held by a cache map, by key.
pub uninterp spec fn cached_of(m: DashMap<String, Vec<Song>>) -> Map<Seq<char>, Seq<SongView>>;

pub open spec fn shard_or_empty(shelf: Map<Seq<char>, Map<usize, SongView>>, g: Seq<char>) -> Map<usize, SongView> {
    if shelf.contains_key(g) {
        shelf[g]
    } else {
        Map::empty()
    }
}

/// Relies on `DashMap::new`: a map with no entries.
#[verifier::external_body]
pub(crate) fn new_shelf() -> (r: DashMap<String, DashMap<usize, Song>>)
    ensures
        forall|g: Seq<char>| !#[trigger] shelf_of(r).contains_key(g),
{
    DashMap::new()
}

/// Relies on `DashMap::entry`, `Entry::or_insert_with` and `DashMap::insert`: the shard
/// under `genre` is created empty when missing, then `song` is stored in it under `id`,
/// replacing any record there.
#[verifier::external_body]
pub(crate) fn shelve(m: &mut DashMap<String, DashMap<usize, Song>>, genre: String, id: usize, song: Song)
    ensures
        shelf_of(*final(m)) == shelf_of(*old(m)).insert(
            genre@,
            shard_or_empty(shelf_of(*old(m)), genre@).insert(id, song@),
        ),
{
    m.entry(genre).or_insert_with(DashMap::new).insert(id, song);
}

/// Relies on `DashMap::iter`, which visits every entry once: the genre keys, each once,
/// in no particular order.
#[verifier::external_body]
pub(crate) fn genres(m: &DashMap<String, DashMap<usize, Song>>) -> (r: Vec<String>)
    ensures
        forall|i: int| 0 <= i < r.len() ==> shelf_of(*m).contains_key(#[trigger] r@[i]@),
        forall|i: int, j: int| 0 <= i < j < r.len() ==> r@[i]@ != r@[j]@,
        forall|g: Seq<char>| #[trigger] shelf_of(*m).contains_key(g) ==> exists|i: int| 0 <= i < r.len() && r@[i]@ == g,
{
    m.iter().map(|e| e.key().clone()).collect()
}

/// Relies on `DashMap::get` and `DashMap::iter`: every id and record of the shard under
/// `genre`, each once, in no particular order; none when there is no such shard.
#[verifier::external_body]
pub(crate) fn shard_entries(m: &DashMap<String, DashMap<usize, Song>>, genre: &String) -> (r: Vec<(usize, Song)>)
    ensures
        forall|i: int|
            0 <= i < r.len() ==> shard_or_empty(shelf_of(*m), genre@).contains_key(#[trigger] r@[i].0)
                && shard_or_empty(shelf_of(*m), genre@)[r@[i].0] == r@[i].1@,
        forall|i: int, j: int| 0 <= i < j < r.len() ==> r@[i].0 != r@[j].0,
        forall|id: usize| #[trigger]
            shard_or_empty(shelf_of(*m), genre@).contains_key(id) ==> exists|i: int| 0 <= i < r.len() && r@[i].0 == id,
{
    match m.get(genre) {
        Some(shard) => shard.iter().map(|e| (*e.key(), e.value().duplicate())).collect(),
        None => Vec::new(),
    }
}

/// Relies on `DashMap::get` on the shard under `genre`, then on `id`: a copy of the
/// record stored there, if any.
#[verifier::external_body]
pub(crate) fn shelf_get(m: &DashMap<String, DashMap<usize, Song>>, genre: &String, id: usize) -> (r: Option<Song>)
    ensures
        r is Some <==> shard_or_empty(shelf_of(*m), genre@).contains_key(id),
        r matches Some(s) ==> s@ == shard_or_empty(shelf_of(*m), genre@)[id],
{
    m.get(genre).and_then(|shard| shard.get(&id).map(|e| e.value().duplicate()))
}

/// Relies on `DashMap::new`: a map with no entries.
#[verifier::external_body]
pub(crate) fn new_cache() -> (r: DashMap<String, Vec<Song>>)
    ensures
        forall|k: Seq<char>| !#[trigger] cached_of(r).contains_key(k),
{
    DashMap::new()
}

/// Relies on `DashMap::get`: a copy of the results stored under `key`, if any.
#[verifier::external_body]
pub(crate) fn cache_get(m: &DashMap<String, Vec<Song>>, key: &String) -> (r: Option<Vec<Song>>)
    ensures
        r is Some <==> cached_of(*m).contains_key(key@),
        r matches Some(v) ==> views(v@) == cached_of(*m)[key@],
{
    m.get(key).map(|e| e.value().iter().map(|s| s.duplicate()).collect())
}

/// Relies on `DashMap::insert`: `songs` is stored under `key`, replacing what was there.
#[verifier::external_body]
pub(crate) fn cache_put(m: &mut DashMap<String, Vec<Song>>, key: String, songs: Vec<Song>)
    ensures
        cached_of(*final(m)) == cached_of(*old(m)).insert(key@, views(songs@)),
{
    m.insert(key, songs);
}

} // verus!
