use rift::history::{
    normalize_source, canonical_kind, ContinueListeningItem, ListeningEvent, ListeningHistoryStore, ListeningSource,
    MAX_HISTORY_EVENTS,
};

fn src(kind: &str, id: Option<&str>, name: Option<&str>) -> ListeningSource {
    ListeningSource { kind: kind.to_string(), id: id.map(|s| s.to_string()), name: name.map(|s| s.to_string()) }
}

fn album_play(path: &str, at: i64) -> ListeningEvent {
    ListeningEvent { path: path.to_string(), played_at: at, source: None }
}

#[test]
fn source_kind_is_canonicalised() {
    let s = normalize_source(src("  PlayList ", Some(" mix "), Some("  "))).unwrap();
    assert_eq!(s.kind, "playlist");
    assert_eq!(s.id.as_deref(), Some("mix"));
    assert_eq!(s.name, None);
    let s = normalize_source(src("Album", None, None)).unwrap();
    assert_eq!(s.kind, "album");
    let s = normalize_source(src("radio", Some("r1"), None)).unwrap();
    assert_eq!(s.kind, "other");
    assert_eq!(s.id.as_deref(), Some("r1"));
}

#[test]
fn empty_unknown_source_is_dropped() {
    assert!(normalize_source(src("radio", None, None)).is_none());
    assert!(normalize_source(src("", Some("   "), Some(""))).is_none());
}

#[test]
fn canonical_kind_on_folded_input() {
    assert_eq!(canonical_kind("album"), "album");
    assert_eq!(canonical_kind("playlist"), "playlist");
    assert_eq!(canonical_kind("Album"), "other");
    assert_eq!(canonical_kind(""), "other");
}

#[test]
fn record_trims_and_skips_blank_paths() {
    let mut h = ListeningHistoryStore::new();
    h.record_play("   ", None, 10);
    assert!(h.events().is_empty());
    h.record_play("  /a.mp3 ", Some(src(" ALBUM", None, None)), 11);
    assert_eq!(h.events().len(), 1);
    let e = &h.events()[0];
    assert_eq!(e.path, "/a.mp3");
    assert_eq!(e.played_at, 11);
    assert_eq!(e.source.as_ref().unwrap().kind, "album");
    h.record_play("/b.mp3", Some(src("x", None, None)), 12);
    assert!(h.events()[1].source.is_none());
}

#[test]
fn normalising_twice_changes_nothing() {
    let once = normalize_source(src("  PLAYLIST\t", Some("\u{3000}road\u{a0}"), Some(" Trip "))).unwrap();
    assert_eq!(once.id.as_deref(), Some("road"));
    assert_eq!(once.name.as_deref(), Some("Trip"));
    let twice = normalize_source(src(&once.kind, once.id.as_deref(), once.name.as_deref())).unwrap();
    assert_eq!(twice.kind, once.kind);
    assert_eq!(twice.id, once.id);
    assert_eq!(twice.name, once.name);
}

#[test]
fn log_is_capped_dropping_oldest() {
    let events: Vec<ListeningEvent> = (0..MAX_HISTORY_EVENTS as i64 + 3).map(|i| album_play(&format!("/{}", i), i)).collect();
    let mut h = ListeningHistoryStore::from_events(events);
    h.record_play("/last", None, 99_999);
    assert_eq!(h.events().len(), MAX_HISTORY_EVENTS);
    assert_eq!(h.events()[0].path, "/4");
    assert_eq!(h.events()[MAX_HISTORY_EVENTS - 1].path, "/last");
}

#[test]
fn recent_paths_are_distinct_newest_first() {
    let h = ListeningHistoryStore::from_events(vec![
        album_play("/a", 1),
        album_play("/b", 2),
        album_play("/a", 3),
        album_play("/c", 4),
        album_play("/c", 5),
    ]);
    assert_eq!(h.recent_paths(10), vec!["/c", "/a", "/b"]);
    assert_eq!(h.recent_paths(2), vec!["/c", "/a"]);
    assert!(h.recent_paths(0).is_empty());
    assert!(ListeningHistoryStore::new().recent_paths(5).is_empty());
}

#[test]
fn recent_items_group_playlists_by_slug() {
    let mut h = ListeningHistoryStore::new();
    h.record_play("/x1", Some(src("playlist", Some("Road"), Some("Road Trip"))), 1);
    h.record_play("/y", None, 2);
    h.record_play("/x2", Some(src("playlist", Some("road"), None)), 3);
    h.record_play("/z", Some(src("playlist", None, Some("no id"))), 4);
    h.record_play("/y", Some(src("album", Some("alb"), None)), 5);
    let items = h.recent_items(10);
    assert_eq!(items.len(), 2);
    match &items[0] {
        ContinueListeningItem::Album { path } => assert_eq!(path, "/y"),
        other => panic!("unexpected {:?}", other),
    }
    match &items[1] {
        ContinueListeningItem::Playlist { playlist_slug, playlist_name } => {
            assert_eq!(playlist_slug, "road");
            assert_eq!(playlist_name, "road");
        }
        other => panic!("unexpected {:?}", other),
    }
    assert_eq!(h.recent_items(1).len(), 1);
    assert!(h.recent_items(0).is_empty());
}

#[test]
fn weekly_ranking_by_plays_then_recency() {
    let now = 2_000_000_000;
    let h = ListeningHistoryStore::from_events(vec![
        album_play("/c", now - 700_000),
        album_play("/c", now - 700_000),
        album_play("/c", now - 700_000),
        album_play("/a", now - 100),
        album_play("/b", now - 50),
        album_play("/a", now - 10),
        album_play("/b", now - 20),
        album_play("/d", now - 5),
    ]);
    assert_eq!(h.most_played_week_paths(now, 10), vec!["/a", "/b", "/d"]);
    assert_eq!(h.most_played_week_paths(now, 2), vec!["/a", "/b"]);
    assert!(h.most_played_week_paths(now, 0).is_empty());
}

#[test]
fn weekly_ranking_includes_window_start_and_breaks_ties_by_path() {
    let now = 1_000_000;
    let h = ListeningHistoryStore::from_events(vec![
        album_play("/z", now - 604_800),
        album_play("/y", now - 604_801),
        album_play("/m", now - 604_800),
    ]);
    assert_eq!(h.most_played_week_paths(now, 5), vec!["/m", "/z"]);
    assert!(ListeningHistoryStore::new().most_played_week_paths(now, 3).is_empty());
}
