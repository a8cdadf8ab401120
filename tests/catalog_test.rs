use songbook::catalog::Catalog;
use songbook::song::{matches_query, Song, SongQuery};

fn query(title: Option<&str>, artist: Option<&str>, genre: Option<&str>) -> SongQuery {
    SongQuery {
        title: title.map(|s| s.to_string()),
        artist: artist.map(|s| s.to_string()),
        genre: genre.map(|s| s.to_string()),
    }
}

fn add(c: &mut Catalog, title: &str, artist: &str, genre: &str) -> Song {
    c.add_song(title.to_string(), artist.to_string(), genre.to_string())
}

fn sorted_ids(v: &[Song]) -> Vec<usize> {
    let mut ids: Vec<usize> = v.iter().map(|s| s.id).collect();
    ids.sort();
    ids
}

#[test]
fn add_song_assigns_increasing_ids_and_lowercase_index() {
    let mut c = Catalog::new();
    let a = add(&mut c, "Song A", "Artist X", "Rock");
    assert_eq!(a.id, 1);
    assert_eq!(a.play_count, 0);
    assert_eq!(a.title, "Song A");
    assert_eq!(a.genre, "Rock");
    assert_eq!(a.index.title, "song a");
    assert_eq!(a.index.artist, "artist x");
    assert_eq!(a.index.genre, "rock");
    let b = add(&mut c, "Other", "Someone", "Jazz");
    let d = add(&mut c, "Third", "Someone", "Rock");
    assert_eq!((b.id, d.id), (2, 3));
}

#[test]
fn ids_are_unique_across_genres() {
    let mut c = Catalog::new();
    let mut ids = Vec::new();
    for i in 0..30 {
        let genre = ["Rock", "Jazz", "Pop"][i % 3];
        ids.push(add(&mut c, "t", "a", genre).id);
    }
    let mut dedup = ids.clone();
    dedup.sort();
    dedup.dedup();
    assert_eq!(dedup.len(), 30);
    assert_eq!(sorted_ids(&c.snapshot_all()), (1..=30).collect::<Vec<usize>>());
}

#[test]
fn search_matches_substrings_ignoring_case() {
    let mut c = Catalog::new();
    add(&mut c, "Song A", "Artist X", "Rock");
    add(&mut c, "Another Song", "Artist Y", "Hard Rock");
    add(&mut c, "Tune", "Artist X", "Jazz");
    assert_eq!(sorted_ids(&c.search(&query(None, None, Some("ROCK")))), vec![1, 2]);
    assert_eq!(sorted_ids(&c.search(&query(Some("song"), Some("x"), None))), vec![1]);
    assert_eq!(sorted_ids(&c.search(&query(None, Some("artist"), None))), vec![1, 2, 3]);
    assert!(c.search(&query(Some("missing"), None, None)).is_empty());
}

#[test]
fn empty_query_returns_every_song() {
    let mut c = Catalog::new();
    add(&mut c, "a", "b", "Rock");
    add(&mut c, "c", "d", "Jazz");
    assert_eq!(sorted_ids(&c.search(&query(None, None, None))), vec![1, 2]);
}

#[test]
fn search_on_empty_catalog_is_empty() {
    let mut c = Catalog::new();
    assert!(c.search(&query(None, None, Some("rock"))).is_empty());
}

#[test]
fn matches_query_checks_every_present_field() {
    let mut c = Catalog::new();
    let s = add(&mut c, "Blue Moon", "Ella", "Jazz");
    assert!(matches_query(&s, &query(Some("MOON"), None, None)));
    assert!(matches_query(&s, &query(Some("blue"), Some("ell"), Some("jaz"))));
    assert!(!matches_query(&s, &query(Some("blue"), Some("frank"), None)));
    assert!(matches_query(&s, &query(None, None, None)));
}

#[test]
fn play_song_increments_by_one() {
    let mut c = Catalog::new();
    add(&mut c, "Song A", "Artist X", "Rock");
    let played = c.play_song(1).unwrap();
    assert_eq!(played.id, 1);
    assert_eq!(played.play_count, 1);
    assert_eq!(played.title, "Song A");
    let again = c.play_song(1).unwrap();
    assert_eq!(again.play_count, 2);
    let snap = c.snapshot_all();
    assert_eq!(snap.len(), 1);
    assert_eq!(snap[0].play_count, 2);
}

#[test]
fn play_unknown_id_is_not_found_and_changes_nothing() {
    let mut c = Catalog::new();
    add(&mut c, "Song A", "Artist X", "Rock");
    assert!(c.play_song(42).is_none());
    let snap = c.snapshot_all();
    assert_eq!(snap.len(), 1);
    assert_eq!(snap[0].play_count, 0);
}

#[test]
fn cached_search_stays_stale_after_play_and_add() {
    let mut c = Catalog::new();
    let a = add(&mut c, "Song A", "Artist X", "Rock");
    assert_eq!(a.id, 1);
    let first = c.search(&query(None, None, Some("rock")));
    assert_eq!(first.len(), 1);
    assert_eq!(first[0].play_count, 0);
    let played = c.play_song(1).unwrap();
    assert_eq!(played.play_count, 1);
    add(&mut c, "Song B", "Artist Z", "Rock");
    let second = c.search(&query(None, None, Some("rock")));
    assert_eq!(second.len(), 1);
    assert_eq!(second[0].id, 1);
    assert_eq!(second[0].play_count, 0);
    // a different query is computed afresh
    let fresh = c.search(&query(None, None, Some("roc")));
    assert_eq!(sorted_ids(&fresh), vec![1, 2]);
}

#[test]
fn snapshot_reloads_to_the_same_records() {
    let mut c = Catalog::new();
    add(&mut c, "Song A", "Artist X", "Rock");
    add(&mut c, "Tune", "Artist Y", "Jazz");
    add(&mut c, "Song C", "Artist Z", "Rock");
    c.play_song(2);
    let snap = c.snapshot_all();
    let mut reloaded = Catalog::from_songs(snap).unwrap();
    let mut before: Vec<(usize, String, usize)> =
        c.snapshot_all().iter().map(|s| (s.id, s.title.clone(), s.play_count)).collect();
    let mut after: Vec<(usize, String, usize)> =
        reloaded.snapshot_all().iter().map(|s| (s.id, s.title.clone(), s.play_count)).collect();
    before.sort();
    after.sort();
    assert_eq!(before, after);
    assert_eq!(after[1], (2, "Tune".to_string(), 1));
    // the next id continues past the largest loaded one
    let next = add(&mut reloaded, "New", "Someone", "Pop");
    assert_eq!(next.id, 4);
}

#[test]
fn reload_refuses_repeated_ids() {
    let mut c = Catalog::new();
    let a = add(&mut c, "Song A", "Artist X", "Rock");
    let copy = a.duplicate();
    assert!(Catalog::from_songs(vec![a, copy]).is_none());
}

#[test]
fn reload_refuses_an_id_with_no_successor() {
    let s = Song::new(usize::MAX, "t".to_string(), "a".to_string(), "g".to_string());
    assert!(Catalog::from_songs(vec![s]).is_none());
}

#[test]
fn reload_of_nothing_starts_at_one() {
    let mut c = Catalog::from_songs(Vec::new()).unwrap();
    assert!(c.snapshot_all().is_empty());
    assert_eq!(add(&mut c, "t", "a", "g").id, 1);
}

#[test]
fn visit_counts_up_from_one() {
    let mut c = Catalog::new();
    assert_eq!(c.visit(), 1);
    assert_eq!(c.visit(), 2);
    assert_eq!(c.visit(), 3);
}
