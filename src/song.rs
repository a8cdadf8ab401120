use vstd::prelude::*;

verus! {

/// The lowercase mirror of a song's display fields, computed once when the song is
/// created and used for case-insensitive search.
pub struct SongIndex {
    pub title: String,
    pub artist: String,
    pub genre: String,
}

/// One record of the catalog.
pub struct Song {
    pub id: usize,
    pub title: String,
    pub artist: String,
    pub genre: String,
    pub play_count: usize,
    pub index: SongIndex,
}

/// A search request: each field that is present must occur, ignoring case, in the
/// corresponding field of a matching song; an absent field does not constrain.
pub struct SongQuery {
    pub title: Option<String>,
    pub artist: Option<String>,
    pub genre: Option<String>,
}

pub struct IndexView {
    pub title: Seq<char>,
    pub artist: Seq<char>,
    pub genre: Seq<char>,
}

pub struct SongView {
    pub id: usize,
    pub title: Seq<char>,
    pub artist: Seq<char>,
    pub genre: Seq<char>,
    pub play_count: usize,
    pub index: IndexView,
}

pub struct QueryView {
    pub title: Option<Seq<char>>,
    pub artist: Option<Seq<char>>,
    pub genre: Option<Seq<char>>,
}

pub open spec fn text_of(o: Option<String>) -> Option<Seq<char>> {
    match o {
        Some(s) => Some(s@),
        None => None,
    }
}

impl View for SongIndex {
    type V = IndexView;

    open spec fn view(&self) -> IndexView {
        IndexView { title: self.title@, artist: self.artist@, genre: self.genre@ }
    }
}

impl View for Song {
    type V = SongView;

    open spec fn view(&self) -> SongView {
        SongView {
            id: self.id,
            title: self.title@,
            artist: self.artist@,
            genre: self.genre@,
            play_count: self.play_count,
            index: self.index@,
        }
    }
}

impl View for SongQuery {
    type V = QueryView;

    open spec fn view(&self) -> QueryView {
        QueryView {
            title: text_of(self.title),
            artist: text_of(self.artist),
            genre: text_of(self.genre),
        }
    }
}

/// What `str::to_lowercase` makes of a string.
pub uninterp spec fn lower_of(s: Seq<char>) -> Seq<char>;

/// What `serde_json::to_string` makes of a query's three optional fields.
pub uninterp spec fn query_key_of(q: QueryView) -> Seq<char>;

/// `needle` occurs in `hay` as a contiguous run of characters.
pub open spec fn is_substring(needle: Seq<char>, hay: Seq<char>) -> bool {
    exists|i: int|
        0 <= i && i + needle.len() <= hay.len() && #[trigger] hay.subrange(i, i + needle.len())
            == needle
}

pub open spec fn field_matches(filter: Option<Seq<char>>, indexed: Seq<char>) -> bool {
    match filter {
        None => true,
        Some(f) => is_substring(lower_of(f), indexed),
    }
}

/// A song matches a query when every present filter, lowercased, occurs in the
/// song's lowercase index of that field.
pub open spec fn song_matches(s: SongView, q: QueryView) -> bool {
    &&& field_matches(q.title, s.index.title)
    &&& field_matches(q.artist, s.index.artist)
    &&& field_matches(q.genre, s.index.genre)
}

/// The record that a new song with these display fields and this id starts as.
pub open spec fn fresh_song(id: usize, title: Seq<char>, artist: Seq<char>, genre: Seq<char>) -> SongView {
    SongView {
        id,
        title,
        artist,
        genre,
        play_count: 0,
        index: IndexView { title: lower_of(title), artist: lower_of(artist), genre: lower_of(genre) },
    }
}

pub open spec fn views(v: Seq<Song>) -> Seq<SongView> {
    v.map_values(|s: Song| s@)
}

/// Relies on `str::to_lowercase`: the result depends on the characters alone.
#[verifier::external_body]
pub(crate) fn lowercase(s: &str) -> (r: String)
    ensures
        r@ == lower_of(s@),
{
    s.to_lowercase()
}

/// Relies on `str::contains` with a `&str` pattern: true exactly when `needle` occurs in
/// `hay` as a contiguous substring.
#[verifier::external_body]
pub(crate) fn contains_str(hay: &str, needle: &str) -> (r: bool)
    ensures
        r == is_substring(needle@, hay@),
{
    hay.contains(needle)
}

/// Relies on `serde_json::to_string` of the tuple of the three optional fields: a JSON
/// array that depends on the field values alone. Serialising strings and options
/// cannot fail, so the empty fallback is never taken.
#[verifier::external_body]
pub(crate) fn query_key(q: &SongQuery) -> (r: String)
    ensures
        r@ == query_key_of(q@),
{
    serde_json::to_string(&(q.title.as_deref(), q.artist.as_deref(), q.genre.as_deref())).unwrap_or_default()
}

impl SongIndex {
    /// A copy with the same contents.
    pub fn duplicate(&self) -> (r: SongIndex)
        ensures
            r@ == self@,
    {
        SongIndex { title: self.title.clone(), artist: self.artist.clone(), genre: self.genre.clone() }
    }
}

impl Song {
    /// A new song with play count 0 and its lowercase index computed from the display fields.
    pub fn new(id: usize, title: String, artist: String, genre: String) -> (r: Song)
        ensures
            r@ == fresh_song(id, title@, artist@, genre@),
    {
        let index = SongIndex {
            title: lowercase(title.as_str()),
            artist: lowercase(artist.as_str()),
            genre: lowercase(genre.as_str()),
        };
        Song { id, title, artist, genre, play_count: 0, index }
    }

    /// A copy with the same contents.
    pub fn duplicate(&self) -> (r: Song)
        ensures
            r@ == self@,
    {
        Song {
            id: self.id,
            title: self.title.clone(),
            artist: self.artist.clone(),
            genre: self.genre.clone(),
            play_count: self.play_count,
            index: self.index.duplicate(),
        }
    }
}

fn field_matches_exec(filter: &Option<String>, indexed: &String) -> (r: bool)
    ensures
        r == field_matches(text_of(*filter), indexed@),
{
    match filter {
        None => true,
        Some(f) => {
            let lower = lowercase(f.as_str());
            contains_str(indexed.as_str(), lower.as_str())
        },
    }
}

/// Whether `song` satisfies every filter of `query`.
pub fn matches_query(song: &Song, query: &SongQuery) -> (r: bool)
    ensures
        r == song_matches(song@, query@),
{
    field_matches_exec(&query.title, &song.index.title) && field_matches_exec(
        &query.artist,
        &song.index.artist,
    ) && field_matches_exec(&query.genre, &song.index.genre)
}

} // verus!
