use rift::library::{match_tier, MusicLibrary};
use rift::models::Song;

fn song(title: &str, artist: &str, album: &str, path: &str) -> Song {
    Song {
        title: title.to_string(),
        subtitle: artist.to_string(),
        album: album.to_string(),
        track_number: None,
        added_at: 0,
        duration: "3:00".to_string(),
        cover: String::new(),
        path: path.to_string(),
        genre: None,
    }
}

fn with_cover(mut s: Song, cover: &str) -> Song {
    s.cover = cover.to_string();
    s
}

fn paths(songs: &[Song]) -> Vec<String> {
    songs.iter().map(|s| s.path.clone()).collect()
}

#[test]
fn new_library_counts_and_looks_up() {
    let lib = MusicLibrary::new(vec![song("A", "X", "P", "/a"), song("B", "Y", "Q", "/b")]);
    assert_eq!(lib.get_stats(), 2);
    assert_eq!(lib.lookup("/a").unwrap().title, "A");
    assert_eq!(lib.lookup("/b").unwrap().subtitle, "Y");
    assert!(lib.lookup("/c").is_none());
    assert!(lib.lookup("/A").is_none());
}

#[test]
fn empty_library() {
    let lib = MusicLibrary::new(Vec::new());
    assert_eq!(lib.get_stats(), 0);
    assert!(lib.search("anything").is_empty());
}

#[test]
fn later_scan_entry_replaces_earlier_one_with_same_path() {
    let lib = MusicLibrary::new(vec![song("Old", "X", "P", "/a"), song("B", "Y", "Q", "/b"), song("New", "X", "P", "/a")]);
    assert_eq!(lib.get_stats(), 2);
    assert_eq!(lib.lookup("/a").unwrap().title, "New");
}

#[test]
fn reindex_replaces_rather_than_merges() {
    let mut lib = MusicLibrary::new(vec![song("A", "X", "P", "/a"), song("B", "Y", "Q", "/b")]);
    let n = lib.reindex(vec![song("C", "Z", "R", "/c")]);
    assert_eq!(n, 1);
    assert_eq!(lib.get_stats(), 1);
    assert!(lib.lookup("/a").is_none());
    assert_eq!(lib.lookup("/c").unwrap().title, "C");
}

#[test]
fn reindexing_twice_is_idempotent() {
    let scan = vec![song("One", "A", "X", "/1"), song("Two", "B", "Y", "/2"), song("Three", "C", "Z", "/3")];
    let mut reordered = scan.clone();
    reordered.reverse();
    let mut lib = MusicLibrary::new(Vec::new());
    assert_eq!(lib.reindex(scan.clone()), 3);
    let first = paths(&lib.search("t"));
    assert_eq!(lib.reindex(reordered), 3);
    let second = paths(&lib.search("t"));
    assert_eq!(first, second);
    for p in ["/1", "/2", "/3"] {
        assert_eq!(lib.lookup(p).unwrap().path, p);
    }
}

#[test]
fn empty_or_blank_query_finds_nothing() {
    let lib = MusicLibrary::new(vec![song("A", "X", "P", "/a")]);
    assert!(lib.search("").is_empty());
    assert!(lib.search("   ").is_empty());
}

#[test]
fn search_is_case_insensitive_and_trims() {
    let lib = MusicLibrary::new(vec![song("Hello World", "Artist", "Album", "/h"), song("Other", "Someone", "Else", "/o")]);
    assert_eq!(paths(&lib.search("WORLD")), vec!["/h"]);
    assert_eq!(paths(&lib.search("  hello ")), vec!["/h"]);
    assert!(lib.search("missing").is_empty());
}

#[test]
fn search_never_returns_non_matching_tracks() {
    let lib = MusicLibrary::new(vec![
        song("Blue", "Red", "Green", "/1"),
        song("Yellow", "Blueberry", "Black", "/2"),
        song("White", "Grey", "Deep Blue", "/3"),
        song("Orange", "Pink", "Purple", "/4"),
    ]);
    let found = lib.search("blue");
    assert_eq!(found.len(), 3);
    for s in &found {
        let hit = s.title.to_lowercase().contains("blue")
            || s.subtitle.to_lowercase().contains("blue")
            || s.album.to_lowercase().contains("blue");
        assert!(hit);
    }
    assert!(!paths(&found).contains(&"/4".to_string()));
}

#[test]
fn title_match_before_artist_before_album() {
    let lib = MusicLibrary::new(vec![
        song("Nothing", "Nobody", "Love Songs", "/c"),
        song("Nothing", "Love Band", "Misc", "/b"),
        song("Love Me", "Zed", "Misc", "/a"),
    ]);
    assert_eq!(paths(&lib.search("love")), vec!["/a", "/b", "/c"]);
}

#[test]
fn ties_break_by_artist_album_title_then_path() {
    let lib = MusicLibrary::new(vec![
        song("Song b", "Beta", "A", "/1"),
        song("Song a", "Alpha", "B", "/2"),
        song("Song c", "Alpha", "A", "/3"),
        song("Song a", "Alpha", "A", "/5"),
        song("Song a", "Alpha", "A", "/4"),
        song("Song z", "alpha", "A", "/6"),
    ]);
    // case-sensitive tie-breaks: "Alpha" < "Beta" < "alpha"
    assert_eq!(paths(&lib.search("song")), vec!["/4", "/5", "/3", "/2", "/1", "/6"]);
}

#[test]
fn match_tier_on_folded_fields() {
    assert_eq!(match_tier("lo", "hello", "x", "y"), 0);
    assert_eq!(match_tier("lo", "hi", "lola", "y"), 1);
    assert_eq!(match_tier("lo", "hi", "x", "yellow"), 2);
    assert_eq!(match_tier("lo", "hi", "x", "y"), 3);
    assert_eq!(match_tier("lo", "lo", "lo", "lo"), 0);
    assert_eq!(match_tier("", "a", "b", "c"), 0);
    // inputs are taken as already lower-cased
    assert_eq!(match_tier("lo", "HELLO", "x", "y"), 3);
}

#[test]
fn orphaned_covers_are_those_no_track_uses() {
    let lib = MusicLibrary::new(vec![
        with_cover(song("A", "X", "P", "/a"), "aa.jpg"),
        with_cover(song("B", "Y", "Q", "/b"), "bb.png"),
        with_cover(song("C", "Z", "R", "/c"), "aa.jpg"),
        song("D", "W", "S", "/d"),
    ]);
    let cache = vec!["old.jpg".to_string(), "aa.jpg".to_string(), "zz.gif".to_string(), "bb.png".to_string()];
    assert_eq!(lib.orphaned_covers(&cache), vec!["old.jpg".to_string(), "zz.gif".to_string()]);
    assert!(lib.orphaned_covers(&Vec::new()).is_empty());
}

#[test]
fn reindex_orphans_covers_of_removed_tracks() {
    let mut lib = MusicLibrary::new(vec![with_cover(song("A", "X", "P", "/a"), "aa.jpg"), with_cover(song("B", "Y", "Q", "/b"), "bb.jpg")]);
    let cache = vec!["aa.jpg".to_string(), "bb.jpg".to_string()];
    assert!(lib.orphaned_covers(&cache).is_empty());
    lib.reindex(vec![with_cover(song("A", "X", "P", "/a"), "aa.jpg")]);
    assert_eq!(lib.orphaned_covers(&cache), vec!["bb.jpg".to_string()]);
}

#[test]
fn search_folds_non_ascii_case() {
    let lib = MusicLibrary::new(vec![song("Éclair", "Ärzte", "Œuvre", "/e"), song("plain", "x", "y", "/p")]);
    assert_eq!(paths(&lib.search("éCL")), vec!["/e"]);
    assert_eq!(paths(&lib.search("ÄRZ")), vec!["/e"]);
    assert_eq!(paths(&lib.search("œuv")), vec!["/e"]);
}
