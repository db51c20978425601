use rift::scanner::{classify_entry, is_audio_extension, is_audio_extension_folded, EntryAction};

#[test]
fn allowed_extensions_in_any_case() {
    for e in ["mp3", "flac", "alac", "wav", "m4a", "ogg", "aac"] {
        assert!(is_audio_extension_folded(e));
        assert!(is_audio_extension(e));
        assert!(is_audio_extension(&e.to_uppercase()));
    }
    assert!(is_audio_extension("Mp3"));
    assert!(!is_audio_extension("txt"));
    assert!(!is_audio_extension("mp4"));
    assert!(!is_audio_extension(""));
    assert!(!is_audio_extension_folded("MP3"));
    assert!(!is_audio_extension_folded("mp3 "));
}

#[test]
fn entries_are_classified() {
    assert_eq!(classify_entry(true, false, None), EntryAction::Descend);
    assert_eq!(classify_entry(true, true, None), EntryAction::Skip);
    assert_eq!(classify_entry(false, false, Some("FLAC")), EntryAction::Index);
    assert_eq!(classify_entry(false, true, Some("ogg")), EntryAction::Index);
    assert_eq!(classify_entry(false, false, Some("jpg")), EntryAction::Skip);
    assert_eq!(classify_entry(false, false, None), EntryAction::Skip);
}
