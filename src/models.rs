//! Plain records shared across the library: tracks, playlists and settings.
use vstd::prelude::*;

verus! {

/// One indexed audio file: its display metadata and its absolute path,
/// which is the track's key in the library.
#[derive(Debug)]
pub struct Song {
    pub title: String,
    /// Display subtitle: the artist.
    pub subtitle: String,
    pub album: String,
    pub track_number: Option<u32>,
    /// Seconds since the Unix epoch at which the file was last modified.
    pub added_at: i64,
    /// Duration rendered as `m:ss`.
    pub duration: String,
    /// File name of the cached cover, or empty when the track has none.
    pub cover: String,
    pub path: String,
    pub genre: Option<String>,
}

/// A copy of an optional string.
pub fn clone_opt_string(s: &Option<String>) -> (r: Option<String>)
    ensures
        r == *s,
{
    match s {
        Some(v) => Some(v.clone()),
        None => None,
    }
}

impl Clone for Song {
    fn clone(&self) -> (r: Self)
        ensures
            r == *self,
    {
        Song {
            title: self.title.clone(),
            subtitle: self.subtitle.clone(),
            album: self.album.clone(),
            track_number: self.track_number,
            added_at: self.added_at,
            duration: self.duration.clone(),
            cover: self.cover.clone(),
            path: self.path.clone(),
            genre: clone_opt_string(&self.genre),
        }
    }
}

/// A user playlist: its unique slug and display name.
#[derive(Debug, Clone)]
pub struct Playlist {
    pub slug: String,
    pub name: String,
}

/// A playlist row as stored by the playlist store.
#[derive(Debug, Clone)]
pub struct PlaylistRecord {
    pub slug: String,
    pub name: String,
}

/// The user's settings, a flat set of switches.
#[derive(Debug, Clone, Copy, PartialEq, Eq, Structural)]
pub struct Config {
    pub launch_at_startup: bool,
    pub volume_normalization: bool,
    pub autoplay: bool,
    pub crossfade: bool,
    pub gapless_playback: bool,
    pub normalize_by_album: bool,
    pub discord_rpc: bool,
    pub online_requests: bool,
    pub automatic_updates: bool,
    pub dark_theme: bool,
    pub native_decorations: bool,
}

impl Default for Config {
    fn default() -> (r: Self)
        ensures
            !r.launch_at_startup,
            !r.volume_normalization,
            r.autoplay,
            !r.crossfade,
            r.gapless_playback,
            !r.normalize_by_album,
            r.discord_rpc,
            r.online_requests,
            r.automatic_updates,
            r.dark_theme,
            !r.native_decorations,
    {
        Config {
            launch_at_startup: false,
            volume_normalization: false,
            autoplay: true,
            crossfade: false,
            gapless_playback: true,
            normalize_by_album: false,
            discord_rpc: true,
            online_requests: true,
            automatic_updates: true,
            dark_theme: true,
            native_decorations: false,
        }
    }
}

} // verus!
