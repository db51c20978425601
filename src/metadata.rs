//! Shaping one audio file's tags into a track record, and naming its
//! artwork in the content-addressed cover cache.
use vstd::prelude::*;
use crate::text::{decimal, decimal_string, digit_char, digit_str, hex_of, hex_string, lemma_hex_len, str_eq};
use crate::models::Song;
use sha2::Digest;

verus! {

/// The text tags read from one audio file's primary (else first) tag.
#[derive(Debug)]
pub struct AudioTags {
    pub title: Option<String>,
    pub artist: Option<String>,
    pub album: Option<String>,
    pub track_number: Option<u32>,
    pub genre: Option<String>,
}

/// Title shown for a track: its tag, else the file stem, else a placeholder.
pub open spec fn title_of(tag: Option<String>, stem: Option<String>) -> Seq<char> {
    match tag {
        Some(t) => t@,
        None => match stem {
            Some(s) => s@,
            None => "Unknown Title"@,
        },
    }
}

/// Artist shown for a track: its tag, else a placeholder.
pub open spec fn artist_of(tag: Option<String>) -> Seq<char> {
    match tag {
        Some(a) => a@,
        None => "Unknown Artist"@,
    }
}

/// Album shown for a track: its tag, else empty.
pub open spec fn album_of(tag: Option<String>) -> Seq<char> {
    match tag {
        Some(a) => a@,
        None => Seq::empty(),
    }
}

/// Builds the track record for an audio file from what was read of it: its
/// path, the file stem, its tags (`None` when the file carries no tag at all,
/// in which case the file is not indexed), its whole-second duration, the
/// cover cache file name (empty when there is no artwork) and its
/// modification time.
pub fn track_from_tags(
    path: String,
    stem: Option<String>,
    tags: Option<AudioTags>,
    duration_secs: u64,
    cover: String,
    added_at: i64,
) -> (r: Option<Song>)
    ensures
        r.is_some() == tags.is_some(),
        r.is_some() ==> {
            let s = r.unwrap();
            let t = tags.unwrap();
            &&& s.title@ == title_of(t.title, stem)
            &&& s.subtitle@ == artist_of(t.artist)
            &&& s.album@ == album_of(t.album)
            &&& s.track_number == t.track_number
            &&& s.genre == t.genre
            &&& s.duration@ == duration_text(duration_secs as nat)
            &&& s.cover == cover
            &&& s.path == path
            &&& s.added_at == added_at
        },
{
    let tags = match tags {
        Some(t) => t,
        None => return None,
    };
    let title = match tags.title {
        Some(t) => t,
        None => match stem {
            Some(s) => s,
            None => String::from_str("Unknown Title"),
        },
    };
    let artist = match tags.artist {
        Some(a) => a,
        None => String::from_str("Unknown Artist"),
    };
    let album = match tags.album {
        Some(a) => a,
        None => String::new(),
    };
    Some(Song {
        title,
        subtitle: artist,
        album,
        track_number: tags.track_number,
        added_at,
        duration: format_duration(duration_secs),
        cover,
        path,
        genre: tags.genre,
    })
}

/// `m:ss` display form of a whole number of seconds: minutes unpadded,
/// seconds as two digits.
pub open spec fn duration_text(secs: nat) -> Seq<char> {
    decimal(secs / 60) + seq![':'] + seq![digit_char((secs % 60) / 10), digit_char(secs % 10)]
}

/// Formats a duration in whole seconds as `m:ss`.
pub fn format_duration(secs: u64) -> (r: String)
    ensures
        r@ == duration_text(secs as nat),
{
    proof {
        reveal_strlit(":");
    }
    let mut s = decimal_string(secs / 60);
    s.append(":");
    let rem = secs % 60;
    s.append(digit_str(rem / 10));
    s.append(digit_str(rem % 10));
    assert(s@ =~= duration_text(secs as nat));
    s
}

/// Whether `data` begins with the bytes of `sig`.
pub open spec fn starts_with_bytes(data: Seq<u8>, sig: Seq<u8>) -> bool {
    sig.len() <= data.len() && data.take(sig.len() as int) == sig
}

/// Image extension recognised from the leading bytes of the data: JPEG, PNG,
/// GIF and BMP signatures, `jpg` when none matches.
pub open spec fn sniffed_extension(data: Seq<u8>) -> Seq<char> {
    if starts_with_bytes(data, seq![0xFFu8, 0xD8u8, 0xFFu8]) {
        "jpg"@
    } else if starts_with_bytes(
        data,
        seq![0x89u8, 0x50u8, 0x4Eu8, 0x47u8, 0x0Du8, 0x0Au8, 0x1Au8, 0x0Au8],
    ) {
        "png"@
    } else if starts_with_bytes(data, seq![0x47u8, 0x49u8, 0x46u8]) {
        "gif"@
    } else if starts_with_bytes(data, seq![0x42u8, 0x4Du8]) {
        "bmp"@
    } else {
        "jpg"@
    }
}

/// Extension of a cached cover: from the declared MIME type when it is one
/// of the known image types, otherwise sniffed from the data.
pub open spec fn cover_extension_of(mime: Option<Seq<char>>, data: Seq<u8>) -> Seq<char> {
    match mime {
        Some(m) => {
            if m == "image/jpeg"@ {
                "jpg"@
            } else if m == "image/png"@ {
                "png"@
            } else if m == "image/gif"@ {
                "gif"@
            } else if m == "image/bmp"@ {
                "bmp"@
            } else if m == "image/tiff"@ {
                "tiff"@
            } else if m == "image/webp"@ {
                "webp"@
            } else {
                sniffed_extension(data)
            }
        },
        None => sniffed_extension(data),
    }
}

/// The view of an optional string slice.
pub open spec fn opt_str_view(s: Option<&str>) -> Option<Seq<char>> {
    match s {
        Some(v) => Some(v@),
        None => None,
    }
}

/// Cache file name `<hex digest>.<ext>` for artwork with the given digest.
pub open spec fn cover_file_name_of(digest: Seq<u8>, mime: Option<Seq<char>>, data: Seq<u8>) -> Seq<char> {
    hex_of(digest) + "."@ + cover_extension_of(mime, data)
}

/// The SHA-256 digest of a byte string.
pub uninterp spec fn sha256_of(data: Seq<u8>) -> Seq<u8>;

/// Relies on sha2's `Sha256::digest`: the SHA-256 digest of the bytes, which
/// is always 32 bytes long.
#[verifier::external_body]
fn sha256(data: &[u8]) -> (r: Vec<u8>)
    ensures
        r@ == sha256_of(data@),
        r@.len() == 32,
{
    sha2::Sha256::digest(data).to_vec()
}

fn bytes_start_with(data: &[u8], sig: &[u8]) -> (r: bool)
    ensures
        r == starts_with_bytes(data@, sig@),
{
    if sig.len() > data.len() {
        return false;
    }
    let mut i: usize = 0;
    while i < sig.len()
        invariant
            sig@.len() <= data@.len(),
            i <= sig@.len(),
            forall|k: int| 0 <= k < i ==> data@[k] == sig@[k],
        decreases sig@.len() - i,
    {
        if data[i] != sig[i] {
            assert(data@.take(sig@.len() as int)[i as int] != sig@[i as int]);
            return false;
        }
        i = i + 1;
    }
    assert(data@.take(sig@.len() as int) =~= sig@);
    true
}

/// Recognises an image format from its leading bytes.
pub fn sniff_extension(data: &[u8]) -> (r: &'static str)
    ensures
        r@ == sniffed_extension(data@),
{
    let jpeg: [u8; 3] = [0xFF, 0xD8, 0xFF];
    let png: [u8; 8] = [0x89, 0x50, 0x4E, 0x47, 0x0D, 0x0A, 0x1A, 0x0A];
    let gif: [u8; 3] = [0x47, 0x49, 0x46];
    let bmp: [u8; 2] = [0x42, 0x4D];
    assert(jpeg@ =~= seq![0xFFu8, 0xD8u8, 0xFFu8]);
    assert(png@ =~= seq![0x89u8, 0x50u8, 0x4Eu8, 0x47u8, 0x0Du8, 0x0Au8, 0x1Au8, 0x0Au8]);
    assert(gif@ =~= seq![0x47u8, 0x49u8, 0x46u8]);
    assert(bmp@ =~= seq![0x42u8, 0x4Du8]);
    if bytes_start_with(data, &jpeg) {
        "jpg"
    } else if bytes_start_with(data, &png) {
        "png"
    } else if bytes_start_with(data, &gif) {
        "gif"
    } else if bytes_start_with(data, &bmp) {
        "bmp"
    } else {
        "jpg"
    }
}

/// File extension under which artwork is cached.
pub fn cover_extension(mime: Option<&str>, data: &[u8]) -> (r: &'static str)
    ensures
        r@ == cover_extension_of(opt_str_view(mime), data@),
{
    match mime {
        Some(m) => {
            if str_eq(m, "image/jpeg") {
                "jpg"
            } else if str_eq(m, "image/png") {
                "png"
            } else if str_eq(m, "image/gif") {
                "gif"
            } else if str_eq(m, "image/bmp") {
                "bmp"
            } else if str_eq(m, "image/tiff") {
                "tiff"
            } else if str_eq(m, "image/webp") {
                "webp"
            } else {
                sniff_extension(data)
            }
        },
        None => sniff_extension(data),
    }
}

/// Names a cover cache entry from an already computed digest of the artwork:
/// returns the file name `<hex>.<ext>` and the hex digest.
pub fn cover_name_from_digest(digest: &[u8], mime: Option<&str>, data: &[u8]) -> (r: (String, String))
    ensures
        r.0@ == cover_file_name_of(digest@, opt_str_view(mime), data@),
        r.1@ == hex_of(digest@),
        r.1@.len() == 2 * digest@.len(),
{
    let hex = hex_string(digest);
    proof {
        lemma_hex_len(digest@);
    }
    let mut name = hex.clone();
    name.append(".");
    name.append(cover_extension(mime, data));
    (name, hex)
}

/// Content-addressed cache entry for a piece of embedded artwork: the file
/// name `<hex sha-256>.<ext>` and the hex digest.
pub fn cover_cache_name(data: &[u8], mime: Option<&str>) -> (r: (String, String))
    ensures
        r.0@ == cover_file_name_of(sha256_of(data@), opt_str_view(mime), data@),
        r.1@ == hex_of(sha256_of(data@)),
        r.1@.len() == 64,
{
    let digest = sha256(data);
    cover_name_from_digest(digest.as_slice(), mime, data)
}

/// Two tracks whose embedded artwork has byte-identical data and the same
/// declared type get the same cache entry, so the cache holds one file for both.
pub proof fn lemma_identical_artwork_one_entry(
    data1: Seq<u8>,
    mime1: Option<Seq<char>>,
    data2: Seq<u8>,
    mime2: Option<Seq<char>>,
)
    requires
        data1 == data2,
        mime1 == mime2,
    ensures
        cover_file_name_of(sha256_of(data1), mime1, data1) == cover_file_name_of(sha256_of(data2), mime2, data2),
        set![
            cover_file_name_of(sha256_of(data1), mime1, data1),
            cover_file_name_of(sha256_of(data2), mime2, data2),
        ].len() == 1,
{
    let n = cover_file_name_of(sha256_of(data1), mime1, data1);
    assert(set![n, n] =~= set![n]);
}

} // verus!
