//! The record types that a scan produces: songs, albums, artists, playlists,
//! and the transient file list that discovery builds up.

use vstd::prelude::*;

verus! {

/// View of an optional string as an optional sequence of characters.
pub open spec fn ov(o: Option<String>) -> Option<Seq<char>> {
    match o {
        Some(s) => Some(s@),
        None => None,
    }
}

/// View of a discovered `(path, size)` candidate.
pub open spec fn entry_view(e: (String, u64)) -> (Seq<char>, u64) {
    (e.0@, e.1)
}

/// Views of a whole candidate list.
pub open spec fn entries_view(s: Seq<(String, u64)>) -> Seq<(Seq<char>, u64)> {
    s.map_values(|e: (String, u64)| entry_view(e))
}

/// Views of a list of path strings.
pub open spec fn paths_view(s: Seq<String>) -> Seq<Seq<char>> {
    s.map_values(|p: String| p@)
}

/// An audio item streamed to the consumer.
pub struct Song {
    /// Stable identifier: a fresh UUID for local items, `<provider>:<ref>`
    /// for external playlist entries.
    pub _id: String,
    /// Bits per second.
    pub bitrate: Option<u32>,
    /// Hertz.
    pub sample_rate: Option<u32>,
    /// Duration in milliseconds.  Consumers that want fractional seconds
    /// divide by a thousand.
    pub duration_ms: Option<u64>,
    /// Canonical filesystem path for local items.
    pub path: Option<String>,
    /// Size in bytes.
    pub size: Option<u32>,
    pub title: Option<String>,
    pub album: Option<Album>,
    pub artists: Vec<Artists>,
    pub year: Option<String>,
    pub genre: Option<Vec<String>>,
    pub lyrics: Option<String>,
    pub track_no: Option<String>,
    /// High-resolution cover path in the thumbnail store.
    pub high_path: Option<String>,
    /// Low-resolution cover path in the thumbnail store.
    pub low_path: Option<String>,
    /// `"LOCAL"` for filesystem items, a provider label otherwise.
    pub song_type: String,
    /// Identifier of the playlist that referenced this song, if any.
    pub playlist_id: Option<String>,
    /// Where an external entry is played from.
    pub playback_url: Option<String>,
}

/// An album attached to a song; covers are inherited from the owning song.
pub struct Album {
    pub album_id: String,
    pub album_name: String,
    pub album_cover_path_high: Option<String>,
    pub album_cover_path_low: Option<String>,
}

/// One artist credited on a song.
pub struct Artists {
    pub artist_id: String,
    pub artist_name: String,
}

/// A playlist header streamed to the consumer.
pub struct Playlist {
    pub id: String,
    pub title: String,
    pub path: String,
}

/// Transient aggregate of discovery: audio candidates and playlist manifests.
pub struct FileList {
    /// Ordered `(canonical path, size in bytes)` audio candidates.
    pub file_list: Vec<(String, u64)>,
    /// Ordered playlist manifest paths.
    pub playlist_list: Vec<String>,
}

impl FileList {
    /// An empty file list: what a scan of a missing root yields.
    pub fn new() -> (r: FileList)
        ensures
            r.file_list@.len() == 0,
            r.playlist_list@.len() == 0,
    {
        FileList { file_list: Vec::new(), playlist_list: Vec::new() }
    }
}

/// Plain values read from an audio tag.
pub struct TagData {
    pub title: Option<String>,
    pub album: Option<String>,
    /// The raw artist field, still joined by the artist splitter.
    pub artist: Option<String>,
    pub year: Option<u32>,
    pub genre: Option<String>,
    pub lyrics: Option<String>,
    pub track_no: Option<String>,
}

/// Plain values read from a file's audio properties.
pub struct AudioProps {
    /// Kilobits per second, as the tag reader reports it.
    pub bitrate_kbps: Option<u32>,
    /// Hertz.
    pub sample_rate: Option<u32>,
    /// Whole seconds of playback.
    pub duration_secs: u64,
}

/// A song as delivered to the consumer, with its position in the scan.
pub struct SongWithLen {
    pub song: Song,
    /// Total number of songs this scan will deliver.
    pub size: u32,
    /// 1-based index of this delivery.
    pub current: u32,
}

} // verus!
