//! Decisions of the directory walk that builds the library: which entries to
//! descend into and which files to read as audio.
use vstd::prelude::*;
use crate::text::{lower_of, str_eq, to_lower};

verus! {

/// The extensions, lower-cased, of the files the library indexes.
pub open spec fn is_audio_ext(e: Seq<char>) -> bool {
    e == "mp3"@ || e == "flac"@ || e == "alac"@ || e == "wav"@ || e == "m4a"@ || e == "ogg"@ || e == "aac"@
}

/// Whether an already lower-cased extension is one of the indexed audio types.
pub fn is_audio_extension_folded(ext: &str) -> (r: bool)
    ensures
        r == is_audio_ext(ext@),
{
    str_eq(ext, "mp3") || str_eq(ext, "flac") || str_eq(ext, "alac") || str_eq(ext, "wav") || str_eq(ext, "m4a")
        || str_eq(ext, "ogg") || str_eq(ext, "aac")
}

/// Whether a file extension, in any case, is one of the indexed audio types.
pub fn is_audio_extension(ext: &str) -> (r: bool)
    ensures
        r == is_audio_ext(lower_of(ext@)),
{
    let lowered = to_lower(ext);
    is_audio_extension_folded(lowered.as_str())
}

/// What the walk does with one directory entry.
#[derive(Clone, Copy, Debug, PartialEq, Eq, Structural)]
pub enum EntryAction {
    /// Walk into the directory.
    Descend,
    /// Read the file's metadata and index it.
    Index,
    /// Leave the entry alone.
    Skip,
}

/// Classifies a directory entry from whether it is a directory, whether it is
/// a symbolic link, and its extension (in any case). Linked directories are
/// not followed, so a link cycle cannot make the walk loop.
pub fn classify_entry(is_dir: bool, is_symlink: bool, ext: Option<&str>) -> (r: EntryAction)
    ensures
        is_dir ==> r == (if is_symlink { EntryAction::Skip } else { EntryAction::Descend }),
        !is_dir ==> (r == EntryAction::Index <==> (ext is Some && is_audio_ext(lower_of(ext.unwrap()@)))),
        !is_dir ==> r != EntryAction::Descend,
{
    if is_dir {
        if is_symlink {
            EntryAction::Skip
        } else {
            EntryAction::Descend
        }
    } else {
        match ext {
            Some(e) => {
                if is_audio_extension(e) {
                    EntryAction::Index
                } else {
                    EntryAction::Skip
                }
            },
            None => EntryAction::Skip,
        }
    }
}

} // verus!
