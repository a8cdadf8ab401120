use vstd::prelude::*;
use dashmap::DashMap;
use std::collections::HashSet;
use crate::shelf::{
    cache_get, cache_put, cached_of, genres, new_cache, new_shelf, shard_entries, shard_or_empty,
    shelf_get, shelf_of, shelve,
};
use crate::song::{
    Song, SongQuery, SongView, contains_str, fresh_song, lowercase, matches_query, query_key,
    query_key_of, song_matches, views,
};

verus! {

/// The catalog service: songs sharded by lowercase genre, a never-invalidated cache of
/// search results, the next id to hand out and a visit counter.
pub struct Catalog {
    library: DashMap<String, DashMap<usize, Song>>,
    cache: DashMap<String, Vec<Song>>,
    next_id: usize,
    visits: usize,
}

pub struct CatalogView {
    pub songs: Set<SongView>,
    pub cache: Map<Seq<char>, Seq<SongView>>,
    pub next_id: usize,
    pub visits: usize,
}

/// `s` is held in the shard of its lowercase genre, under its id.
pub open spec fn stored_in(shelf: Map<Seq<char>, Map<usize, SongView>>, s: SongView) -> bool {
    &&& shelf.contains_key(s.index.genre)
    &&& shelf[s.index.genre].contains_key(s.id)
    &&& shelf[s.index.genre][s.id] == s
}

/// Every record sits in the shard of its lowercase genre under its own id, no id is in
/// two shards, and every id is below the next one to be handed out.
pub open spec fn shelf_wf(shelf: Map<Seq<char>, Map<usize, SongView>>, next_id: usize) -> bool {
    &&& 1 <= next_id
    &&& forall|g: Seq<char>, id: usize|
        shelf.contains_key(g) && #[trigger] shelf[g].contains_key(id) ==> shelf[g][id].id == id
            && shelf[g][id].index.genre == g && id < next_id
    &&& forall|g1: Seq<char>, g2: Seq<char>, id: usize|
        shelf.contains_key(g1) && shelf.contains_key(g2) && #[trigger] shelf[g1].contains_key(id)
            && #[trigger] shelf[g2].contains_key(id) ==> g1 == g2
}

/// `v` lists every element of `s`, each once (no two entries share an id), and nothing else.
pub open spec fn lists_exactly(v: Seq<SongView>, s: Set<SongView>) -> bool {
    &&& forall|i: int| 0 <= i < v.len() ==> s.contains(#[trigger] v[i])
    &&& forall|x: SongView| #[trigger] s.contains(x) ==> exists|i: int| 0 <= i < v.len() && v[i] == x
    &&& forall|i: int, j: int| 0 <= i < j < v.len() ==> v[i].id != v[j].id
}

/// The stored songs that `q` matches.
pub open spec fn matching(songs: Set<SongView>, q: crate::song::QueryView) -> Set<SongView> {
    songs.filter(|s: SongView| song_matches(s, q))
}

/// The song of `songs` that carries `id`.
pub open spec fn song_with_id(songs: Set<SongView>, id: usize) -> SongView {
    choose|s: SongView| songs.contains(s) && s.id == id
}

pub open spec fn has_id(songs: Set<SongView>, id: usize) -> bool {
    exists|s: SongView| songs.contains(s) && s.id == id
}

/// The record after one more play.
pub open spec fn played(s: SongView) -> SongView {
    SongView { play_count: (s.play_count + 1) as usize, ..s }
}

/// `g` is the genre of one of the first `n` shard keys in `gs`.
pub open spec fn genre_among(gs: Seq<String>, n: int, g: Seq<char>) -> bool {
    exists|a: int| 0 <= a < n && #[trigger] gs[a]@ == g
}

/// A listing of records that cannot be loaded: two records share an id, or an id leaves
/// no room for a next one.
pub open spec fn load_rejects(v: Seq<SongView>) -> bool {
    ||| exists|i: int, j: int| 0 <= i < j < v.len() && v[i].id == v[j].id
    ||| exists|i: int| 0 <= i < v.len() && v[i].id == usize::MAX
}

/// One more than the largest id among the first `n` records, or 1 when there are none.
pub open spec fn next_after(v: Seq<SongView>, n: int) -> usize
    decreases n,
{
    if n <= 0 {
        1
    } else if v[n - 1].id >= next_after(v, n - 1) {
        (v[n - 1].id + 1) as usize
    } else {
        next_after(v, n - 1)
    }
}

/// `x` is one of the records of `v`.
pub open spec fn listed(v: Seq<SongView>, x: SongView) -> bool {
    exists|i: int| 0 <= i < v.len() && v[i] == x
}

impl View for Catalog {
    type V = CatalogView;

    closed spec fn view(&self) -> CatalogView {
        CatalogView {
            songs: Set::new(|s: SongView| stored_in(shelf_of(self.library), s)),
            cache: cached_of(self.cache),
            next_id: self.next_id,
            visits: self.visits,
        }
    }
}

impl Catalog {
    pub closed spec fn wf(&self) -> bool {
        shelf_wf(shelf_of(self.library), self.next_id)
    }

    /// An empty catalog whose first song gets id 1.
    pub fn new() -> (r: Catalog)
        ensures
            r.wf(),
            r@.songs == Set::<SongView>::empty(),
            r@.cache == Map::<Seq<char>, Seq<SongView>>::empty(),
            r@.next_id == 1,
            r@.visits == 0,
    {
        let r = Catalog { library: new_shelf(), cache: new_cache(), next_id: 1, visits: 0 };
        assert(r@.songs =~= Set::<SongView>::empty());
        assert(r@.cache =~= Map::<Seq<char>, Seq<SongView>>::empty());
        r
    }

    /// Ids are unique across the whole catalog, and all lie below the next id.
    pub proof fn lemma_ids_unique(&self)
        requires
            self.wf(),
        ensures
            forall|s: SongView| #[trigger] self@.songs.contains(s) ==> s.id < self@.next_id,
            forall|s1: SongView, s2: SongView|
                #[trigger] self@.songs.contains(s1) && #[trigger] self@.songs.contains(s2) && s1.id == s2.id
                    ==> s1 == s2,
    {
        let shelf = shelf_of(self.library);
        assert forall|s1: SongView, s2: SongView|
            #[trigger] self@.songs.contains(s1) && #[trigger] self@.songs.contains(s2) && s1.id == s2.id
                implies s1 == s2 by {
            assert(stored_in(shelf, s1) && stored_in(shelf, s2));
            assert(shelf[s1.index.genre].contains_key(s1.id));
            assert(shelf[s2.index.genre].contains_key(s2.id));
        }
        assert forall|s: SongView| #[trigger] self@.songs.contains(s) implies s.id < self@.next_id by {
            assert(stored_in(shelf, s));
            assert(shelf[s.index.genre].contains_key(s.id));
        }
    }

    /// Adds a song with the next id, play count 0 and its lowercase index, in the shard
    /// of its lowercase genre; returns the stored record.
    pub fn add_song(&mut self, title: String, artist: String, genre: String) -> (r: Song)
        requires
            old(self).wf(),
            old(self)@.next_id < usize::MAX,
        ensures
            final(self).wf(),
            r@ == fresh_song(old(self)@.next_id, title@, artist@, genre@),
            forall|s: SongView| #[trigger] old(self)@.songs.contains(s) ==> s.id != r@.id,
            final(self)@.songs == old(self)@.songs.insert(r@),
            final(self)@.next_id == old(self)@.next_id + 1,
            final(self)@.cache == old(self)@.cache,
            final(self)@.visits == old(self)@.visits,
    {
        proof {
            self.lemma_ids_unique();
        }
        let ghost before = shelf_of(self.library);
        let id = self.next_id;
        let song = Song::new(id, title, artist, genre);
        let key = song.index.genre.clone();
        shelve(&mut self.library, key, id, song.duplicate());
        self.next_id = id + 1;
        let ghost after = shelf_of(self.library);
        let ghost g = song@.index.genre;
        assert forall|h: Seq<char>, i: usize|
            after.contains_key(h) && #[trigger] after[h].contains_key(i) implies after[h][i].id == i
                && after[h][i].index.genre == h && i < self.next_id by {
            if h == g && i == id {
            } else {
                assert(before.contains_key(h) && before[h].contains_key(i));
            }
        }
        assert forall|g1: Seq<char>, g2: Seq<char>, i: usize|
            after.contains_key(g1) && after.contains_key(g2) && #[trigger] after[g1].contains_key(i)
                && #[trigger] after[g2].contains_key(i) implies g1 == g2 by {
            if i == id {
                if g1 != g {
                    assert(before[g1].contains_key(i));
                }
                if g2 != g {
                    assert(before[g2].contains_key(i));
                }
            } else {
                assert(before.contains_key(g1) && before[g1].contains_key(i));
                assert(before.contains_key(g2) && before[g2].contains_key(i));
            }
        }
        assert forall|s: SongView| stored_in(after, s) <==> stored_in(before, s) || s == song@ by {
            if stored_in(before, s) && s != song@ {
                if s.id == id {
                    assert(before[s.index.genre].contains_key(s.id));
                }
            }
        }
        assert(self@.songs =~= old(self)@.songs.insert(song@));
        song
    }

    /// Counts one more visit and returns the new count.
    pub fn visit(&mut self) -> (r: usize)
        requires
            old(self)@.visits < usize::MAX,
        ensures
            r == old(self)@.visits + 1,
            final(self)@.visits == r,
            final(self)@.songs == old(self)@.songs,
            final(self)@.cache == old(self)@.cache,
            final(self)@.next_id == old(self)@.next_id,
            final(self).wf() == old(self).wf(),
    {
        self.visits = self.visits + 1;
        self.visits
    }
    /// A copy of every record, each once, in no particular order.
    pub fn snapshot_all(&self) -> (r: Vec<Song>)
        requires
            self.wf(),
        ensures
            lists_exactly(views(r@), self@.songs),
    {
        let ghost shelf = shelf_of(self.library);
        let gs = genres(&self.library);
        let mut out: Vec<Song> = Vec::new();
        let mut i: usize = 0;
        while i < gs.len()
            invariant
                self.wf(),
                shelf == shelf_of(self.library),
                i <= gs.len(),
                forall|a: int| 0 <= a < gs.len() ==> shelf.contains_key(#[trigger] gs@[a]@),
                forall|a: int, b: int| 0 <= a < b < gs.len() ==> gs@[a]@ != gs@[b]@,
                forall|g: Seq<char>| #[trigger]
                    shelf.contains_key(g) ==> exists|a: int| 0 <= a < gs.len() && gs@[a]@ == g,
                forall|k: int|
                    0 <= k < out.len() ==> stored_in(shelf, #[trigger] out@[k]@) && genre_among(
                        gs@,
                        i as int,
                        out@[k]@.index.genre,
                    ),
                forall|s: SongView|
                    #[trigger] stored_in(shelf, s) && genre_among(gs@, i as int, s.index.genre) ==> exists|k: int|
                        0 <= k < out.len() && out@[k]@ == s,
                forall|k: int, l: int| 0 <= k < l < out.len() ==> out@[k]@.id != out@[l]@.id,
            decreases gs.len() - i,
        {
            let entries = shard_entries(&self.library, &gs[i]);
            let ghost g = gs@[i as int]@;
            let ghost start = out.len() as int;
            let mut j: usize = 0;
            while j < entries.len()
                invariant
                    self.wf(),
                    shelf == shelf_of(self.library),
                    i < gs.len(),
                    g == gs@[i as int]@,
                    shelf.contains_key(g),
                    forall|a: int, b: int| 0 <= a < b < gs.len() ==> gs@[a]@ != gs@[b]@,
                    j <= entries.len(),
                    0 <= start,
                    out.len() == start + j,
                    forall|e: int|
                        0 <= e < entries.len() ==> shard_or_empty(shelf, g).contains_key(#[trigger] entries@[e].0)
                            && shard_or_empty(shelf, g)[entries@[e].0] == entries@[e].1@,
                    forall|e: int, f: int| 0 <= e < f < entries.len() ==> entries@[e].0 != entries@[f].0,
                    forall|k: int|
                        0 <= k < start ==> stored_in(shelf, #[trigger] out@[k]@) && genre_among(
                            gs@,
                            i as int,
                            out@[k]@.index.genre,
                        ),
                    forall|k: int| start <= k < out.len() ==> #[trigger] out@[k]@ == entries@[k - start].1@,
                    forall|s: SongView|
                        #[trigger] stored_in(shelf, s) && genre_among(gs@, i as int, s.index.genre) ==> exists|k: int|
                            0 <= k < start && out@[k]@ == s,
                    forall|k: int, l: int| 0 <= k < l < out.len() ==> out@[k]@.id != out@[l]@.id,
                decreases entries.len() - j,
            {
                let ghost key = entries@[j as int].0;
                assert(shelf[g].contains_key(key));
                let song = entries[j].1.duplicate();
                assert forall|k: int| 0 <= k < out.len() implies out@[k]@.id != song@.id by {
                    if k < start {
                        let a = choose|a: int| 0 <= a < i && #[trigger] gs@[a]@ == out@[k]@.index.genre;
                        assert(stored_in(shelf, out@[k]@));
                        assert(shelf[out@[k]@.index.genre].contains_key(out@[k]@.id));
                    } else {
                        assert(out@[k]@ == entries@[k - start].1@);
                        assert(shelf[g].contains_key(entries@[k - start].0));
                    }
                }
                let ghost prev_out = out@;
                out.push(song);
                assert(forall|k: int| 0 <= k < prev_out.len() ==> out@[k] == prev_out[k]);
                assert forall|x: SongView|
                    #[trigger] stored_in(shelf, x) && genre_among(gs@, i as int, x.index.genre) implies exists|k: int|
                        0 <= k < start && out@[k]@ == x by {
                    let k = choose|k: int| 0 <= k < start && prev_out[k]@ == x;
                    assert(out@[k]@ == x);
                }
                assert forall|k: int| start <= k < out.len() implies #[trigger] out@[k]@ == entries@[k - start].1@ by {
                    if k < prev_out.len() {
                        assert(out@[k] == prev_out[k]);
                    }
                }
                j = j + 1;
            }
            assert forall|k: int| 0 <= k < out.len() implies stored_in(shelf, #[trigger] out@[k]@) && genre_among(
                gs@,
                i + 1,
                out@[k]@.index.genre,
            ) by {
                if k < start {
                    let a = choose|a: int| 0 <= a < i && #[trigger] gs@[a]@ == out@[k]@.index.genre;
                    assert(gs@[a]@ == out@[k]@.index.genre);
                } else {
                    assert(out@[k]@ == entries@[k - start].1@);
                    assert(shelf[g].contains_key(entries@[k - start].0));
                    assert(gs@[i as int]@ == out@[k]@.index.genre);
                }
            }
            assert forall|s: SongView|
                #[trigger] stored_in(shelf, s) && genre_among(gs@, i + 1, s.index.genre) implies exists|k: int|
                    0 <= k < out.len() && out@[k]@ == s by {
                if !genre_among(gs@, i as int, s.index.genre) {
                    assert(s.index.genre == g);
                    assert(shard_or_empty(shelf, g).contains_key(s.id));
                    let e = choose|e: int| 0 <= e < entries.len() && entries@[e].0 == s.id;
                    assert(out@[start + e]@ == entries@[e].1@);
                }
            }
            i = i + 1;
        }
        assert forall|x: SongView| #[trigger] self@.songs.contains(x) implies exists|k: int|
            0 <= k < views(out@).len() && views(out@)[k] == x by {
            assert(stored_in(shelf, x));
            let a = choose|a: int| 0 <= a < gs.len() && gs@[a]@ == x.index.genre;
            assert(genre_among(gs@, gs.len() as int, x.index.genre));
            let k = choose|k: int| 0 <= k < out.len() && out@[k]@ == x;
            assert(views(out@)[k] == x);
        }
        assert forall|k: int| 0 <= k < views(out@).len() implies self@.songs.contains(#[trigger] views(out@)[k]) by {
            assert(stored_in(shelf, out@[k]@));
        }
        out
    }

    /// Adds one play to the song with `id`, wherever it is stored, and returns the updated
    /// record; returns `None` and changes nothing when no song has that id.
    pub fn play_song(&mut self, id: usize) -> (r: Option<Song>)
        requires
            old(self).wf(),
            forall|s: SongView| #[trigger] old(self)@.songs.contains(s) && s.id == id ==> s.play_count < usize::MAX,
        ensures
            final(self).wf(),
            r is None <==> !has_id(old(self)@.songs, id),
            r is None ==> final(self)@.songs == old(self)@.songs,
            r matches Some(x) ==> x@ == played(song_with_id(old(self)@.songs, id))
                && final(self)@.songs == old(self)@.songs.remove(song_with_id(old(self)@.songs, id)).insert(x@),
            final(self)@.cache == old(self)@.cache,
            final(self)@.next_id == old(self)@.next_id,
            final(self)@.visits == old(self)@.visits,
    {
        proof {
            self.lemma_ids_unique();
        }
        let ghost before = shelf_of(self.library);
        let gs = genres(&self.library);
        let mut i: usize = 0;
        while i < gs.len()
            invariant
                self.wf(),
                before == shelf_of(self.library),
                self.cache == old(self).cache,
                self.next_id == old(self).next_id,
                self.visits == old(self).visits,
                self.library == old(self).library,
                i <= gs.len(),
                forall|g: Seq<char>| #[trigger]
                    before.contains_key(g) ==> exists|a: int| 0 <= a < gs.len() && gs@[a]@ == g,
                forall|a: int| 0 <= a < i ==> !#[trigger] shard_or_empty(before, gs@[a]@).contains_key(id),
                forall|s: SongView|
                    #[trigger] old(self)@.songs.contains(s) && s.id == id ==> s.play_count < usize::MAX,
            decreases gs.len() - i,
        {
            match shelf_get(&self.library, &gs[i], id) {
                Some(song) => {
                    let ghost g = gs@[i as int]@;
                    let ghost prev = song@;
                    proof {
                        self.lemma_ids_unique();
                    }
                    assert(before.contains_key(g) && before[g].contains_key(id));
                    assert(stored_in(before, prev));
                    assert(old(self)@.songs.contains(prev));
                    assert(song_with_id(old(self)@.songs, id) == prev);
                    let mut song = song;
                    song.play_count = song.play_count + 1;
                    shelve(&mut self.library, gs[i].clone(), id, song.duplicate());
                    let ghost after = shelf_of(self.library);
                    assert forall|h: Seq<char>, k: usize|
                        after.contains_key(h) && #[trigger] after[h].contains_key(k) implies after[h][k].id == k
                            && after[h][k].index.genre == h && k < self.next_id by {
                        if !(h == g && k == id) {
                            assert(before.contains_key(h) && before[h].contains_key(k));
                        }
                    }
                    assert forall|g1: Seq<char>, g2: Seq<char>, k: usize|
                        after.contains_key(g1) && after.contains_key(g2) && #[trigger] after[g1].contains_key(k)
                            && #[trigger] after[g2].contains_key(k) implies g1 == g2 by {
                        assert(before.contains_key(g1) && before[g1].contains_key(k));
                        assert(before.contains_key(g2) && before[g2].contains_key(k));
                    }
                    assert forall|s: SongView| stored_in(after, s) <==> (stored_in(before, s) && s != prev) || s == song@ by {
                        if stored_in(before, s) && s != prev && s.index.genre == g && s.id == id {
                            assert(before[g].contains_key(id));
                        }
                    }
                    assert(self@.songs =~= old(self)@.songs.remove(prev).insert(song@));
                    return Some(song);
                },
                None => {},
            }
            i = i + 1;
        }
        assert forall|s: SongView| #[trigger] old(self)@.songs.contains(s) implies s.id != id by {
            assert(stored_in(before, s));
            let a = choose|a: int| 0 <= a < gs.len() && gs@[a]@ == s.index.genre;
            assert(!shard_or_empty(before, gs@[a]@).contains_key(id));
        }
        None
    }
    /// Whether the shard under `g` can hold a song that `query` matches: every song there
    /// has lowercase genre `g`, so a genre filter rules out shards whose key lacks it.
    fn shard_may_match(g: &String, query: &SongQuery) -> (r: bool)
        ensures
            !r ==> forall|s: SongView| s.index.genre == g@ ==> !#[trigger] song_matches(s, query@),
    {
        match &query.genre {
            None => true,
            Some(f) => {
                let lower = lowercase(f.as_str());
                contains_str(g.as_str(), lower.as_str())
            },
        }
    }

    /// Every stored song that `query` matches, each once, in no particular order. With a
    /// genre filter only the shards whose key contains the lowercased filter are read.
    pub fn find_matching(&self, query: &SongQuery) -> (r: Vec<Song>)
        requires
            self.wf(),
        ensures
            lists_exactly(views(r@), matching(self@.songs, query@)),
    {
        let ghost shelf = shelf_of(self.library);
        let ghost q = query@;
        let gs = genres(&self.library);
        let mut out: Vec<Song> = Vec::new();
        let mut i: usize = 0;
        while i < gs.len()
            invariant
                self.wf(),
                shelf == shelf_of(self.library),
                q == query@,
                i <= gs.len(),
                forall|a: int| 0 <= a < gs.len() ==> shelf.contains_key(#[trigger] gs@[a]@),
                forall|a: int, b: int| 0 <= a < b < gs.len() ==> gs@[a]@ != gs@[b]@,
                forall|g: Seq<char>| #[trigger]
                    shelf.contains_key(g) ==> exists|a: int| 0 <= a < gs.len() && gs@[a]@ == g,
                forall|k: int|
                    0 <= k < out.len() ==> stored_in(shelf, #[trigger] out@[k]@) && song_matches(out@[k]@, q)
                        && genre_among(gs@, i as int, out@[k]@.index.genre),
                forall|s: SongView|
                    #[trigger] stored_in(shelf, s) && song_matches(s, q) && genre_among(gs@, i as int, s.index.genre)
                        ==> exists|k: int| 0 <= k < out.len() && out@[k]@ == s,
                forall|k: int, l: int| 0 <= k < l < out.len() ==> out@[k]@.id != out@[l]@.id,
            decreases gs.len() - i,
        {
            let ghost g = gs@[i as int]@;
            let ghost start = out.len() as int;
            if Self::shard_may_match(&gs[i], query) {
                let entries = shard_entries(&self.library, &gs[i]);
                let mut j: usize = 0;
                while j < entries.len()
                    invariant
                        self.wf(),
                        shelf == shelf_of(self.library),
                        q == query@,
                        i < gs.len(),
                        g == gs@[i as int]@,
                        shelf.contains_key(g),
                        forall|a: int, b: int| 0 <= a < b < gs.len() ==> gs@[a]@ != gs@[b]@,
                        j <= entries.len(),
                        0 <= start <= out.len(),
                        forall|e: int|
                            0 <= e < entries.len() ==> shard_or_empty(shelf, g).contains_key(#[trigger] entries@[e].0)
                                && shard_or_empty(shelf, g)[entries@[e].0] == entries@[e].1@,
                        forall|e: int, f: int| 0 <= e < f < entries.len() ==> entries@[e].0 != entries@[f].0,
                        forall|k: int|
                            0 <= k < start ==> stored_in(shelf, #[trigger] out@[k]@) && song_matches(out@[k]@, q)
                                && genre_among(gs@, i as int, out@[k]@.index.genre),
                        forall|k: int|
                            start <= k < out.len() ==> exists|e: int|
                                0 <= e < j && #[trigger] out@[k]@ == entries@[e].1@ && song_matches(out@[k]@, q),
                        forall|e: int|
                            0 <= e < j && song_matches(#[trigger] entries@[e].1@, q) ==> exists|k: int|
                                start <= k < out.len() && out@[k]@ == entries@[e].1@,
                        forall|s: SongView|
                            #[trigger] stored_in(shelf, s) && song_matches(s, q) && genre_among(gs@, i as int, s.index.genre)
                                ==> exists|k: int| 0 <= k < start && out@[k]@ == s,
                        forall|k: int, l: int| 0 <= k < l < out.len() ==> out@[k]@.id != out@[l]@.id,
                    decreases entries.len() - j,
                {
                    let ghost key = entries@[j as int].0;
                    assert(shelf[g].contains_key(key));
                    if matches_query(&entries[j].1, query) {
                        let song = entries[j].1.duplicate();
                        assert forall|k: int| 0 <= k < out.len() implies out@[k]@.id != song@.id by {
                            if k < start {
                                let a = choose|a: int| 0 <= a < i && #[trigger] gs@[a]@ == out@[k]@.index.genre;
                                assert(stored_in(shelf, out@[k]@));
                                assert(shelf[out@[k]@.index.genre].contains_key(out@[k]@.id));
                            } else {
                                let e = choose|e: int| 0 <= e < j && #[trigger] out@[k]@ == entries@[e].1@ && song_matches(out@[k]@, q);
                                assert(shelf[g].contains_key(entries@[e].0));
                            }
                        }
                        let ghost prev_out = out@;
                        out.push(song);
                        assert(forall|k: int| 0 <= k < prev_out.len() ==> out@[k] == prev_out[k]);
                        assert forall|x: SongView|
                            #[trigger] stored_in(shelf, x) && song_matches(x, q) && genre_among(gs@, i as int, x.index.genre)
                                implies exists|k: int| 0 <= k < start && out@[k]@ == x by {
                            let k = choose|k: int| 0 <= k < start && prev_out[k]@ == x;
                            assert(out@[k]@ == x);
                        }
                        assert forall|k: int| start <= k < out.len() implies exists|e: int|
                            0 <= e < j + 1 && #[trigger] out@[k]@ == entries@[e].1@ && song_matches(out@[k]@, q) by {
                            if k < prev_out.len() {
                                assert(out@[k] == prev_out[k]);
                                let e = choose|e: int| 0 <= e < j && #[trigger] prev_out[k]@ == entries@[e].1@ && song_matches(prev_out[k]@, q);
                                assert(out@[k]@ == entries@[e].1@);
                            } else {
                                assert(out@[k]@ == entries@[j as int].1@);
                            }
                        }
                        assert forall|e: int|
                            0 <= e < j + 1 && song_matches(#[trigger] entries@[e].1@, q) implies exists|k: int|
                                start <= k < out.len() && out@[k]@ == entries@[e].1@ by {
                            if e < j {
                                let k = choose|k: int| start <= k < prev_out.len() && prev_out[k]@ == entries@[e].1@;
                                assert(out@[k]@ == entries@[e].1@);
                            } else {
                                assert(out@[prev_out.len() as int]@ == entries@[e].1@);
                            }
                        }
                    }
                    j = j + 1;
                }
                assert forall|k: int| 0 <= k < out.len() implies stored_in(shelf, #[trigger] out@[k]@)
                    && song_matches(out@[k]@, q) && genre_among(gs@, i + 1, out@[k]@.index.genre) by {
                    if k < start {
                        let a = choose|a: int| 0 <= a < i && #[trigger] gs@[a]@ == out@[k]@.index.genre;
                        assert(gs@[a]@ == out@[k]@.index.genre);
                    } else {
                        let e = choose|e: int| 0 <= e < j && #[trigger] out@[k]@ == entries@[e].1@ && song_matches(out@[k]@, q);
                        assert(shelf[g].contains_key(entries@[e].0));
                        assert(gs@[i as int]@ == out@[k]@.index.genre);
                    }
                }
                assert forall|s: SongView|
                    #[trigger] stored_in(shelf, s) && song_matches(s, q) && genre_among(gs@, i + 1, s.index.genre)
                        implies exists|k: int| 0 <= k < out.len() && out@[k]@ == s by {
                    if !genre_among(gs@, i as int, s.index.genre) {
                        assert(s.index.genre == g);
                        assert(shard_or_empty(shelf, g).contains_key(s.id));
                        let e = choose|e: int| 0 <= e < entries.len() && entries@[e].0 == s.id;
                        assert(song_matches(entries@[e].1@, q));
                    }
                }
            } else {
                assert forall|k: int| 0 <= k < out.len() implies stored_in(shelf, #[trigger] out@[k]@)
                    && song_matches(out@[k]@, q) && genre_among(gs@, i + 1, out@[k]@.index.genre) by {
                    let a = choose|a: int| 0 <= a < i && #[trigger] gs@[a]@ == out@[k]@.index.genre;
                    assert(gs@[a]@ == out@[k]@.index.genre);
                }
                assert forall|s: SongView|
                    #[trigger] stored_in(shelf, s) && song_matches(s, q) && genre_among(gs@, i + 1, s.index.genre)
                        implies exists|k: int| 0 <= k < out.len() && out@[k]@ == s by {
                    if !genre_among(gs@, i as int, s.index.genre) {
                        assert(s.index.genre == g);
                    }
                }
            }
            i = i + 1;
        }
        assert forall|x: SongView| #[trigger] matching(self@.songs, q).contains(x) implies exists|k: int|
            0 <= k < views(out@).len() && views(out@)[k] == x by {
            assert(stored_in(shelf, x));
            let a = choose|a: int| 0 <= a < gs.len() && gs@[a]@ == x.index.genre;
            assert(genre_among(gs@, gs.len() as int, x.index.genre));
            let k = choose|k: int| 0 <= k < out.len() && out@[k]@ == x;
            assert(views(out@)[k] == x);
        }
        assert forall|k: int| 0 <= k < views(out@).len() implies matching(self@.songs, q).contains(#[trigger] views(out@)[k]) by {
            assert(stored_in(shelf, out@[k]@));
        }
        out
    }
    /// Looks `query` up in the cache; on a miss computes the matching songs, stores a copy
    /// under the query's key and returns them. The cache is never invalidated, so a hit
    /// may return records as they were when the key was first stored.
    pub fn search(&mut self, query: &SongQuery) -> (r: Vec<Song>)
        requires
            old(self).wf(),
        ensures
            final(self).wf(),
            final(self)@.songs == old(self)@.songs,
            final(self)@.next_id == old(self)@.next_id,
            final(self)@.visits == old(self)@.visits,
            old(self)@.cache.contains_key(query_key_of(query@)) ==> views(r@) == old(self)@.cache[query_key_of(
                query@,
            )] && final(self)@.cache == old(self)@.cache,
            !old(self)@.cache.contains_key(query_key_of(query@)) ==> lists_exactly(
                views(r@),
                matching(old(self)@.songs, query@),
            ) && final(self)@.cache == old(self)@.cache.insert(query_key_of(query@), views(r@)),
    {
        let key = query_key(query);
        match cache_get(&self.cache, &key) {
            Some(hit) => {
                return hit;
            },
            None => {},
        }
        let results = self.find_matching(query);
        let stored = copy_songs(&results);
        cache_put(&mut self.cache, key, stored);
        results
    }

    /// Rebuilds a catalog from saved records, each in the shard of its lowercase genre,
    /// with the next id one past the largest. Refuses records that share an id or whose
    /// id leaves no room for a next one.
    pub fn from_songs(songs: Vec<Song>) -> (r: Option<Catalog>)
        ensures
            r is None <==> load_rejects(views(songs@)),
            r matches Some(c) ==> {
                &&& c.wf()
                &&& forall|x: SongView| #[trigger] c@.songs.contains(x) <==> listed(views(songs@), x)
                &&& c@.cache == Map::<Seq<char>, Seq<SongView>>::empty()
                &&& c@.next_id == next_after(views(songs@), songs.len() as int)
                &&& c@.visits == 0
            },
    {
        broadcast use vstd::std_specs::hash::group_hash_axioms;

        let ghost v = views(songs@);
        let mut c = Catalog::new();
        let mut seen: HashSet<usize> = HashSet::new();
        let mut i: usize = 0;
        while i < songs.len()
            invariant
                v == views(songs@),
                i <= songs.len(),
                c.wf(),
                forall|id: usize| #[trigger] seen@.contains(id) <==> exists|j: int| 0 <= j < i && v[j].id == id,
                forall|j: int, k: int| 0 <= j < k < i ==> v[j].id != v[k].id,
                forall|j: int| 0 <= j < i ==> #[trigger] v[j].id != usize::MAX,
                forall|x: SongView| #[trigger] c@.songs.contains(x) <==> listed(v.take(i as int), x),
                c@.cache == Map::<Seq<char>, Seq<SongView>>::empty(),
                c@.next_id == next_after(v, i as int),
                c@.visits == 0,
            decreases songs.len() - i,
        {
            let id = songs[i].id;
            assert(v[i as int] == songs@[i as int]@);
            if id == usize::MAX {
                return None;
            }
            if !seen.insert(id) {
                assert(exists|j: int| 0 <= j < i && v[j].id == id);
                return None;
            }
            proof {
                c.lemma_ids_unique();
            }
            let song = songs[i].duplicate();
            let ghost before = shelf_of(c.library);
            let ghost g = song@.index.genre;
            let ghost prev_songs = c@.songs;
            shelve(&mut c.library, song.index.genre.clone(), id, song.duplicate());
            if id >= c.next_id {
                c.next_id = id + 1;
            }
            let ghost after = shelf_of(c.library);
            assert forall|g1: Seq<char>, k: usize| before.contains_key(g1) && #[trigger] before[g1].contains_key(k) implies k != id by {
                let x = before[g1][k];
                assert(stored_in(before, x));
                assert(prev_songs.contains(x));
                let j = choose|j: int| 0 <= j < i && #[trigger] v.take(i as int)[j] == x;
                assert(v[j] == x);
            }
            assert forall|h: Seq<char>, k: usize|
                after.contains_key(h) && #[trigger] after[h].contains_key(k) implies after[h][k].id == k
                    && after[h][k].index.genre == h && k < c.next_id by {
                if !(h == g && k == id) {
                    assert(before.contains_key(h) && before[h].contains_key(k));
                }
            }
            assert forall|g1: Seq<char>, g2: Seq<char>, k: usize|
                after.contains_key(g1) && after.contains_key(g2) && #[trigger] after[g1].contains_key(k)
                    && #[trigger] after[g2].contains_key(k) implies g1 == g2 by {
                if k == id {
                    if g1 != g {
                        assert(before[g1].contains_key(k));
                    }
                    if g2 != g {
                        assert(before[g2].contains_key(k));
                    }
                } else {
                    assert(before.contains_key(g1) && before[g1].contains_key(k));
                    assert(before.contains_key(g2) && before[g2].contains_key(k));
                }
            }
            assert forall|x: SongView| stored_in(after, x) <==> stored_in(before, x) || x == song@ by {
                if stored_in(before, x) && x != song@ && x.id == id {
                    assert(before[x.index.genre].contains_key(x.id));
                }
            }
            assert(song@ == v[i as int]);
            assert forall|x: SongView| #[trigger] c@.songs.contains(x) <==> listed(v.take(i + 1), x) by {
                assert(c@.songs.contains(x) == stored_in(after, x));
                assert(prev_songs.contains(x) == stored_in(before, x));
                assert(prev_songs.contains(x) == listed(v.take(i as int), x));
                if listed(v.take(i + 1), x) && x != song@ {
                    let j = choose|j: int| 0 <= j < i + 1 && #[trigger] v.take(i + 1)[j] == x;
                    assert(v.take(i as int)[j] == x);
                }
                if listed(v.take(i as int), x) {
                    let j = choose|j: int| 0 <= j < i && #[trigger] v.take(i as int)[j] == x;
                    assert(v.take(i + 1)[j] == x);
                }
                if x == song@ {
                    assert(v.take(i + 1)[i as int] == x);
                }
            }
            i = i + 1;
        }
        assert(v.take(songs.len() as int) =~= v);
        Some(c)
    }

    /// A copy of the song with `id`, if the catalog has one.
    pub fn find_song(&self, id: usize) -> (r: Option<Song>)
        requires
            self.wf(),
        ensures
            r is None <==> !has_id(self@.songs, id),
            r matches Some(x) ==> x@ == song_with_id(self@.songs, id),
    {
        proof {
            self.lemma_ids_unique();
        }
        let ghost shelf = shelf_of(self.library);
        let gs = genres(&self.library);
        let mut i: usize = 0;
        while i < gs.len()
            invariant
                self.wf(),
                shelf == shelf_of(self.library),
                i <= gs.len(),
                forall|g: Seq<char>| #[trigger]
                    shelf.contains_key(g) ==> exists|a: int| 0 <= a < gs.len() && gs@[a]@ == g,
                forall|a: int| 0 <= a < i ==> !#[trigger] shard_or_empty(shelf, gs@[a]@).contains_key(id),
            decreases gs.len() - i,
        {
            match shelf_get(&self.library, &gs[i], id) {
                Some(song) => {
                    let ghost g = gs@[i as int]@;
                    proof {
                        self.lemma_ids_unique();
                    }
                    assert(shelf.contains_key(g) && shelf[g].contains_key(id));
                    assert(stored_in(shelf, song@));
                    assert(self@.songs.contains(song@));
                    return Some(song);
                },
                None => {},
            }
            i = i + 1;
        }
        assert forall|s: SongView| #[trigger] self@.songs.contains(s) implies s.id != id by {
            assert(stored_in(shelf, s));
            let a = choose|a: int| 0 <= a < gs.len() && gs@[a]@ == s.index.genre;
            assert(!shard_or_empty(shelf, gs@[a]@).contains_key(id));
        }
        None
    }

    /// The id that the next added song will get.
    pub fn next_id(&self) -> (r: usize)
        ensures
            r == self@.next_id,
    {
        self.next_id
    }

    /// The number of visits counted so far.
    pub fn visits(&self) -> (r: usize)
        ensures
            r == self@.visits,
    {
        self.visits
    }
}

/// A copy of each record, in the same order.
fn copy_songs(v: &Vec<Song>) -> (r: Vec<Song>)
    ensures
        views(r@) == views(v@),
{
    let mut out: Vec<Song> = Vec::new();
    let mut i: usize = 0;
    while i < v.len()
        invariant
            i <= v.len(),
            out.len() == i,
            forall|k: int| 0 <= k < i ==> #[trigger] out@[k]@ == v@[k]@,
        decreases v.len() - i,
    {
        out.push(v[i].duplicate());
        i = i + 1;
    }
    assert(views(out@) =~= views(v@));
    out
}

/// Saving and reloading keeps the catalog: a listing of a well-formed catalog's songs,
/// as `snapshot_all` returns, is never refused by `from_songs`, and the records it lists
/// are exactly the catalog's.
pub proof fn lemma_snapshot_reloads(c: &Catalog, snap: Seq<SongView>)
    requires
        c.wf(),
        lists_exactly(snap, c@.songs),
    ensures
        !load_rejects(snap),
        forall|x: SongView| listed(snap, x) <==> #[trigger] c@.songs.contains(x),
{
    c.lemma_ids_unique();
    assert forall|i: int| 0 <= i < snap.len() implies snap[i].id != usize::MAX by {
        assert(c@.songs.contains(snap[i]));
    }
}

/// A cached search result outlives later writes: once a search has stored `first` under
/// the key of query `q`, a catalog reached from there by adding or playing songs (which
/// leave the cache as it is) still holds `first` under that key, so the same query is
/// answered with it however the songs have changed since.
pub proof fn lemma_cached_result_kept(
    q: crate::song::QueryView,
    first: Seq<SongView>,
    after_search: CatalogView,
    after_writes: CatalogView,
)
    requires
        after_search.cache.contains_key(query_key_of(q)),
        after_search.cache[query_key_of(q)] == first,
        after_writes.cache == after_search.cache,
    ensures
        after_writes.cache.contains_key(query_key_of(q)),
        after_writes.cache[query_key_of(q)] == first,
{
}

} // verus!
