use rift::metadata::{
    cover_cache_name, cover_extension, cover_name_from_digest, format_duration, sniff_extension,
    track_from_tags, AudioTags,
};
use rift::models::Config;
use rift::text::trim_text;

const ABC_SHA256: &str = "ba7816bf8f01cfea414140de5dae2223b00361a396177a9cb410ff61f20015ad";

#[test]
fn duration_renders_minutes_and_padded_seconds() {
    assert_eq!(format_duration(0), "0:00");
    assert_eq!(format_duration(5), "0:05");
    assert_eq!(format_duration(65), "1:05");
    assert_eq!(format_duration(599), "9:59");
    assert_eq!(format_duration(3600), "60:00");
    assert_eq!(format_duration(3725), "62:05");
}

#[test]
fn sniffing_recognises_image_signatures() {
    assert_eq!(sniff_extension(&[0xFF, 0xD8, 0xFF, 0xE0]), "jpg");
    assert_eq!(sniff_extension(&[0x89, 0x50, 0x4E, 0x47, 0x0D, 0x0A, 0x1A, 0x0A, 0x00]), "png");
    assert_eq!(sniff_extension(b"GIF89a"), "gif");
    assert_eq!(sniff_extension(b"BM\x00\x00"), "bmp");
    assert_eq!(sniff_extension(&[1, 2, 3]), "jpg");
    assert_eq!(sniff_extension(&[]), "jpg");
    // a truncated PNG signature is not a PNG
    assert_eq!(sniff_extension(&[0x89, 0x50, 0x4E, 0x47]), "jpg");
}

#[test]
fn declared_mime_type_wins_over_sniffing() {
    let png = [0x89, 0x50, 0x4E, 0x47, 0x0D, 0x0A, 0x1A, 0x0A];
    assert_eq!(cover_extension(Some("image/jpeg"), &png), "jpg");
    assert_eq!(cover_extension(Some("image/webp"), &png), "webp");
    assert_eq!(cover_extension(Some("image/tiff"), &png), "tiff");
    assert_eq!(cover_extension(Some("image/bmp"), &png), "bmp");
    assert_eq!(cover_extension(Some("image/gif"), &png), "gif");
    assert_eq!(cover_extension(Some("image/png"), b"GIF8"), "png");
    // unknown or absent declarations fall back to the data
    assert_eq!(cover_extension(Some("application/octet-stream"), &png), "png");
    assert_eq!(cover_extension(None, b"GIF87a"), "gif");
    assert_eq!(cover_extension(Some("IMAGE/PNG"), &[0, 1]), "jpg");
}

#[test]
fn cover_name_from_digest_is_hex_then_extension() {
    let (name, hex) = cover_name_from_digest(&[0x00, 0x0f, 0xa0, 0xff], Some("image/png"), &[]);
    assert_eq!(hex, "000fa0ff");
    assert_eq!(name, "000fa0ff.png");
    let (name, hex) = cover_name_from_digest(&[], None, &[]);
    assert_eq!(hex, "");
    assert_eq!(name, ".jpg");
}

#[test]
fn cover_cache_name_uses_sha256_of_the_artwork() {
    let (name, hex) = cover_cache_name(b"abc", Some("image/png"));
    assert_eq!(hex, ABC_SHA256);
    assert_eq!(name, format!("{}.png", ABC_SHA256));
}

#[test]
fn identical_artwork_shares_one_cache_entry() {
    let art = [0xFF, 0xD8, 0xFF, 0x10, 0x20, 0x30];
    let a = cover_cache_name(&art, None);
    let b = cover_cache_name(&art.to_vec(), None);
    assert_eq!(a, b);
    let other = cover_cache_name(&[0xFF, 0xD8, 0xFF, 0x10, 0x20, 0x31], None);
    assert_ne!(a.0, other.0);
}

fn tags(title: Option<&str>, artist: Option<&str>, album: Option<&str>) -> AudioTags {
    AudioTags {
        title: title.map(|s| s.to_string()),
        artist: artist.map(|s| s.to_string()),
        album: album.map(|s| s.to_string()),
        track_number: Some(3),
        genre: Some("Jazz".to_string()),
    }
}

#[test]
fn track_uses_tags_when_present() {
    let song = track_from_tags(
        "/music/a/Song.flac".to_string(),
        Some("Song".to_string()),
        Some(tags(Some("Real Title"), Some("Band"), Some("Record"))),
        125,
        "abc.jpg".to_string(),
        1_700_000_000,
    )
    .unwrap();
    assert_eq!(song.title, "Real Title");
    assert_eq!(song.subtitle, "Band");
    assert_eq!(song.album, "Record");
    assert_eq!(song.duration, "2:05");
    assert_eq!(song.cover, "abc.jpg");
    assert_eq!(song.path, "/music/a/Song.flac");
    assert_eq!(song.track_number, Some(3));
    assert_eq!(song.genre.as_deref(), Some("Jazz"));
    assert_eq!(song.added_at, 1_700_000_000);
}

#[test]
fn track_falls_back_to_stem_and_placeholders() {
    let song = track_from_tags(
        "/music/b/Intro.mp3".to_string(),
        Some("Intro".to_string()),
        Some(tags(None, None, None)),
        59,
        String::new(),
        0,
    )
    .unwrap();
    assert_eq!(song.title, "Intro");
    assert_eq!(song.subtitle, "Unknown Artist");
    assert_eq!(song.album, "");
    assert_eq!(song.duration, "0:59");
    assert_eq!(song.cover, "");

    let nameless = track_from_tags("/x".to_string(), None, Some(tags(None, None, None)), 0, String::new(), 0).unwrap();
    assert_eq!(nameless.title, "Unknown Title");
}

#[test]
fn file_without_tags_is_not_indexed() {
    let r = track_from_tags("/music/c.ogg".to_string(), Some("c".to_string()), None, 10, String::new(), 0);
    assert!(r.is_none());
}

#[test]
fn default_config_switches() {
    let c = Config::default();
    assert!(!c.launch_at_startup);
    assert!(!c.volume_normalization);
    assert!(c.autoplay);
    assert!(!c.crossfade);
    assert!(c.gapless_playback);
    assert!(!c.normalize_by_album);
    assert!(c.discord_rpc);
    assert!(c.online_requests);
    assert!(c.automatic_updates);
    assert!(c.dark_theme);
    assert!(!c.native_decorations);
}

#[test]
fn duration_of_largest_value() {
    assert_eq!(format_duration(u64::MAX), "307445734561825860:15");
}

#[test]
fn trim_removes_unicode_white_space_only() {
    assert_eq!(trim_text(" \t\n\u{a0}\u{3000}abc d\u{2028}\u{85}\r"), "abc d");
    assert_eq!(trim_text("   "), "");
    assert_eq!(trim_text(""), "");
    assert_eq!(trim_text("\u{200b}x\u{200b}"), "\u{200b}x\u{200b}");
    assert_eq!(trim_text("x"), "x");
}

#[test]
fn cover_digest_is_sixty_four_hex_digits() {
    let (name, hex) = cover_cache_name(&[], None);
    assert_eq!(hex.len(), 64);
    assert_eq!(hex, "e3b0c44298fc1c149afbf4c8996fb92427ae41e4649b934ca495991b7852b855");
    assert_eq!(name, format!("{}.jpg", hex));
}
