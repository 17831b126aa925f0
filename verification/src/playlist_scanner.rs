//! The extended-M3U playlist parser: a verified line machine that turns
//! manifest lines into raw entries, and the resolution of a raw entry into a
//! song record.

use vstd::prelude::*;
use vstd::string::StrSliceExecFns;
use vstd::string::StringExecFns;

use crate::error::ScanError;
use crate::numbers::duration_ms_spec;
use crate::numbers::parse_duration_ms;
use crate::strutil::find_char_from;
use crate::strutil::first_pos_from;
use crate::strutil::has_prefix;
use crate::strutil::lemma_first_pos_of_scan;
use crate::strutil::split_clean;
use crate::strutil::split_clean_vec;
use crate::strutil::str_eq;
use crate::strutil::strings_view;
use crate::strutil::sub_string;
use crate::strutil::trim_of;
use crate::strutil::trim_spec;
use crate::structs::ov;
use crate::structs::Artists;
use crate::structs::Song;
use crate::utils::new_uuid;

verus! {

/// A manifest entry as parsed, before any filesystem resolution.
pub struct RawEntry {
    /// The entry line, with a single leading `file://` stripped.
    pub location: String,
    /// Pending type from a `#MOOSINF:` directive, if any.
    pub song_type: Option<String>,
    /// Pending duration from a `#EXTINF:` directive, in milliseconds.
    pub duration_ms: Option<u64>,
    /// Pending title from a `#EXTINF:` directive.
    pub title: Option<String>,
    /// Pending raw artists field from a `#EXTINF:` directive.
    pub artists: Option<String>,
}

/// Mathematical view of a raw entry.
#[verifier::ext_equal]
pub ghost struct RawEntryV {
    pub location: Seq<char>,
    pub song_type: Option<Seq<char>>,
    pub duration_ms: Option<u64>,
    pub title: Option<Seq<char>>,
    pub artists: Option<Seq<char>>,
}

impl View for RawEntry {
    type V = RawEntryV;

    open spec fn view(&self) -> RawEntryV {
        RawEntryV {
            location: self.location@,
            song_type: ov(self.song_type),
            duration_ms: self.duration_ms,
            title: ov(self.title),
            artists: ov(self.artists),
        }
    }
}

/// Views of a list of raw entries.
pub open spec fn entries_v(s: Seq<RawEntry>) -> Seq<RawEntryV> {
    s.map_values(|e: RawEntry| e@)
}

/// The parser state: the playlist title seen so far, the pending fields that
/// apply to the next entry line, and the entries emitted so far.
#[verifier::ext_equal]
pub ghost struct ParseStateV {
    pub title: Seq<char>,
    pub song_type: Option<Seq<char>>,
    pub duration_ms: Option<u64>,
    pub pending_title: Option<Seq<char>>,
    pub artists: Option<Seq<char>>,
    pub entries: Seq<RawEntryV>,
}

/// The state a parse starts from.
pub open spec fn initial_state() -> ParseStateV {
    ParseStateV {
        title: Seq::empty(),
        song_type: None,
        duration_ms: None,
        pending_title: None,
        artists: None,
        entries: Seq::empty(),
    }
}

/// What a `#EXTINF:` line yields: duration in milliseconds, then the artists
/// half and the title half of the tail, split on the first `-` and trimmed.
pub open spec fn parse_extinf(line: Seq<char>) -> Option<(u64, Seq<char>, Seq<char>)> {
    let m = line.subrange(8, line.len() as int);
    match first_pos_from(m, ',', 0) {
        None => None,
        Some(cm) => match duration_ms_spec(m.subrange(0, cm)) {
            None => None,
            Some(d) => {
                let tail = m.subrange(cm + 1, m.len() as int);
                match first_pos_from(tail, '-', 0) {
                    None => None,
                    Some(dh) => Some(
                        (
                            d,
                            trim_spec(tail.subrange(0, dh)),
                            trim_spec(tail.subrange(dh + 1, tail.len() as int)),
                        ),
                    ),
                }
            },
        },
    }
}

/// The duration half of a `#EXTINF:` line is missing or does not parse: the
/// directive has no comma, or what precedes the comma is not a numeral.
pub open spec fn extinf_duration_bad(line: Seq<char>) -> bool {
    let m = line.subrange(8, line.len() as int);
    match first_pos_from(m, ',', 0) {
        None => true,
        Some(cm) => duration_ms_spec(m.subrange(0, cm)) is None,
    }
}

/// One step of the line machine; `None` is a malformed directive, which
/// fails the whole playlist.
pub open spec fn step_line(st: ParseStateV, line: Seq<char>) -> Option<ParseStateV> {
    if crate::strutil::spec_has_prefix(line, "#EXTINF:"@) {
        match parse_extinf(line) {
            None => None,
            Some((d, a, t)) => Some(
                ParseStateV {
                    duration_ms: Some(d),
                    artists: Some(a),
                    pending_title: Some(t),
                    ..st
                },
            ),
        }
    } else if crate::strutil::spec_has_prefix(line, "#MOOSINF:"@) {
        Some(ParseStateV { song_type: Some(line.subrange(9, line.len() as int)), ..st })
    } else if crate::strutil::spec_has_prefix(line, "#PLAYLIST:"@) {
        Some(ParseStateV { title: line.subrange(10, line.len() as int), ..st })
    } else if crate::strutil::spec_has_prefix(line, "#"@) {
        Some(st)
    } else {
        let loc = if crate::strutil::spec_has_prefix(line, "file://"@) {
            line.subrange(7, line.len() as int)
        } else {
            line
        };
        Some(
            ParseStateV {
                title: st.title,
                song_type: None,
                duration_ms: None,
                pending_title: None,
                artists: None,
                entries: st.entries.push(
                    RawEntryV {
                        location: loc,
                        song_type: st.song_type,
                        duration_ms: st.duration_ms,
                        title: st.pending_title,
                        artists: st.artists,
                    },
                ),
            },
        )
    }
}

/// Run the line machine from `st` over `lines[i..]`.
pub open spec fn run_lines(st: ParseStateV, lines: Seq<Seq<char>>, i: int) -> Option<ParseStateV>
    decreases lines.len() - i,
{
    if i < 0 || i >= lines.len() {
        Some(st)
    } else {
        match step_line(st, lines[i]) {
            None => None,
            Some(s2) => run_lines(s2, lines, i + 1),
        }
    }
}

/// The whole parse of a manifest, line by line.
pub open spec fn parse_playlist_spec(lines: Seq<Seq<char>>) -> Option<ParseStateV> {
    run_lines(initial_state(), lines, 0)
}

/// Index of the line on which the machine fails when run from `st` over
/// `lines[i..]`; meaningful only where [`run_lines`] is `None`.
pub open spec fn failing_line(st: ParseStateV, lines: Seq<Seq<char>>, i: int) -> int
    decreases lines.len() - i,
{
    if i < 0 || i >= lines.len() {
        -1
    } else {
        match step_line(st, lines[i]) {
            None => i,
            Some(s2) => failing_line(s2, lines, i + 1),
        }
    }
}

/// Exec parse of one `#EXTINF:` line, exact against [`parse_extinf`].
fn parse_extinf_line(line: &str) -> (r: Result<(u64, String, String), ScanError>)
    requires
        line@.len() >= 8,
    ensures
        match r {
            Ok((d, a, t)) => parse_extinf(line@) == Some((d, a@, t@)),
            Err(e) => parse_extinf(line@) is None && (if extinf_duration_bad(line@) {
                e is ParseFloatError
            } else {
                e is Message
            }),
        },
{
    let len = line.unicode_len();
    let m = sub_string(line, 8, len);
    let mlen = m.as_str().unicode_len();
    let comma = find_char_from(m.as_str(), ',', 0);
    proof {
        lemma_first_pos_of_scan(
            m@,
            ',',
            0,
            match comma {
                Some(i) => Some(i as int),
                None => None::<int>,
            },
        );
    }
    let cm = match comma {
        Some(i) => i,
        None => {
            return Err(ScanError::ParseFloatError(
                "#EXTINF directive without a duration field".to_owned(),
            ));
        },
    };
    let dur_str = sub_string(m.as_str(), 0, cm);
    let d = match parse_duration_ms(dur_str.as_str()) {
        Some(d) => d,
        None => {
            return Err(ScanError::ParseFloatError("invalid duration in #EXTINF".to_owned()));
        },
    };
    let tail = sub_string(m.as_str(), cm + 1, mlen);
    let tlen = tail.as_str().unicode_len();
    let dash = find_char_from(tail.as_str(), '-', 0);
    proof {
        lemma_first_pos_of_scan(
            tail@,
            '-',
            0,
            match dash {
                Some(i) => Some(i as int),
                None => None::<int>,
            },
        );
    }
    let dh = match dash {
        Some(i) => i,
        None => {
            return Err(ScanError::Message("#EXTINF tail without an artist separator".to_owned()));
        },
    };
    let artists_half = sub_string(tail.as_str(), 0, dh);
    let artists = trim_of(artists_half.as_str());
    let title_half = sub_string(tail.as_str(), dh + 1, tlen);
    let title = trim_of(title_half.as_str());
    Ok((d, artists, title))
}

/// Exec parse of a whole manifest, exact against [`parse_playlist_spec`]:
/// `Ok` carries the playlist title and the raw entries; `Err` is returned
/// exactly when some directive is malformed.
pub fn parse_playlist_lines(lines: &Vec<String>) -> (r: Result<(String, Vec<RawEntry>), ScanError>)
    ensures
        match r {
            Ok((title, entries)) => parse_playlist_spec(strings_view(lines@)) matches Some(st)
                && st.title == title@ && st.entries == entries_v(entries@),
            Err(e) => {
                let lv = strings_view(lines@);
                let j = failing_line(initial_state(), lv, 0);
                &&& parse_playlist_spec(lv) is None
                &&& 0 <= j < lv.len()
                &&& if extinf_duration_bad(lv[j]) {
                    e is ParseFloatError
                } else {
                    e is Message
                }
            },
        },
{
    let ghost lv = strings_view(lines@);
    let mut title: String = String::new();
    let mut song_type: Option<String> = None;
    let mut duration_ms: Option<u64> = None;
    let mut pending_title: Option<String> = None;
    let mut artists: Option<String> = None;
    let mut entries: Vec<RawEntry> = Vec::new();

    let ghost st0 = initial_state();
    proof {
        assert(cur_state(title@, ov(song_type), duration_ms, ov(pending_title), ov(artists),
            entries_v(entries@)) =~= st0);
        assert(entries_v(entries@) =~= Seq::<RawEntryV>::empty());
    }

    let mut i: usize = 0;
    while i < lines.len()
        invariant
            lv == strings_view(lines@),
            i <= lines.len(),
            parse_playlist_spec(lv) == run_lines(
                cur_state(
                    title@,
                    ov(song_type),
                    duration_ms,
                    ov(pending_title),
                    ov(artists),
                    entries_v(entries@),
                ),
                lv,
                i as int,
            ),
            failing_line(initial_state(), lv, 0) == failing_line(
                cur_state(
                    title@,
                    ov(song_type),
                    duration_ms,
                    ov(pending_title),
                    ov(artists),
                    entries_v(entries@),
                ),
                lv,
                i as int,
            ),
        decreases lines.len() - i,
    {
        let ghost pre = cur_state(
            title@,
            ov(song_type),
            duration_ms,
            ov(pending_title),
            ov(artists),
            entries_v(entries@),
        );
        let line = &lines[i];
        let s = line.as_str();
        proof {
            assert(lv[i as int] == s@);
        }
        if has_prefix(s, "#EXTINF:") {
            proof {
                reveal_strlit("#EXTINF:");
            }
            match parse_extinf_line(s) {
                Ok((d, a, t)) => {
                    duration_ms = Some(d);
                    artists = Some(a);
                    pending_title = Some(t);
                },
                Err(e) => {
                    proof {
                        assert(step_line(pre, lv[i as int]) is None);
                        assert(failing_line(pre, lv, i as int) == i);
                    }
                    return Err(e);
                },
            }
        } else if has_prefix(s, "#MOOSINF:") {
            let len = s.unicode_len();
            proof {
                reveal_strlit("#MOOSINF:");
            }
            song_type = Some(sub_string(s, 9, len));
        } else if has_prefix(s, "#PLAYLIST:") {
            let len = s.unicode_len();
            proof {
                reveal_strlit("#PLAYLIST:");
            }
            title = sub_string(s, 10, len);
        } else if has_prefix(s, "#") {
            proof {
                reveal_strlit("#");
            }
        } else {
            let len = s.unicode_len();
            proof {
                reveal_strlit("file://");
            }
            let location = if has_prefix(s, "file://") {
                sub_string(s, 7, len)
            } else {
                line.clone()
            };
            let entry = RawEntry {
                location,
                song_type,
                duration_ms,
                title: pending_title,
                artists,
            };
            let ghost ev = entry@;
            entries.push(entry);
            proof {
                assert(entries_v(entries@) =~= pre.entries.push(ev));
            }
            song_type = None;
            duration_ms = None;
            pending_title = None;
            artists = None;
        }
        proof {
            let post = cur_state(
                title@,
                ov(song_type),
                duration_ms,
                ov(pending_title),
                ov(artists),
                entries_v(entries@),
            );
            assert(step_line(pre, lv[i as int]) == Some(post));
        }
        i = i + 1;
    }
    let ghost fin = cur_state(
        title@,
        ov(song_type),
        duration_ms,
        ov(pending_title),
        ov(artists),
        entries_v(entries@),
    );
    proof {
        assert(run_lines(fin, lv, i as int) == Some(fin));
    }
    Ok((title, entries))
}

/// Bundles the exec parser variables into the machine's state.
pub open spec fn cur_state(
    title: Seq<char>,
    song_type: Option<Seq<char>>,
    duration_ms: Option<u64>,
    pending_title: Option<Seq<char>>,
    artists: Option<Seq<char>>,
    entries: Seq<RawEntryV>,
) -> ParseStateV {
    ParseStateV { title, song_type, duration_ms, pending_title, artists, entries }
}

/// The entry resolves against the filesystem rather than a provider.
pub open spec fn is_local_entry(e: RawEntryV) -> bool {
    e.song_type is None || e.song_type == Some("LOCAL"@)
}

/// Identifier of an external entry: `<provider>:<entry>`.
pub open spec fn external_id(e: RawEntryV) -> Seq<char> {
    e.song_type->Some_0 + ":"@ + e.location
}

/// Names of the artists credited by a raw entry: the non-empty pieces of its
/// artists field split on `;`.
pub open spec fn entry_artist_names(a: Option<Seq<char>>) -> Seq<Seq<char>> {
    match a {
        None => Seq::empty(),
        Some(s) => split_clean(s, ";"@, false),
    }
}

/// The names carried by a built artist list.
pub open spec fn artist_names(s: Seq<Artists>) -> Seq<Seq<char>> {
    s.map_values(|a: Artists| a.artist_name@)
}

/// Build the artist records of a playlist entry: one artist, with a fresh
/// identifier, per non-empty `;`-separated piece.
pub fn parse_artists(artists: &Option<String>) -> (r: Vec<Artists>)
    ensures
        artist_names(r@) == entry_artist_names(ov(*artists)),
        forall|i: int| 0 <= i < r@.len() ==> (#[trigger] r@[i]).artist_id@.len() == 36,
{
    let mut out: Vec<Artists> = Vec::new();
    proof {
        assert(artist_names(out@) =~= Seq::<Seq<char>>::empty());
    }
    match artists {
        None => out,
        Some(s) => {
            let pieces = split_clean_vec(s.as_str(), ";", false);
            proof {
                reveal_strlit(";");
            }
            let mut k: usize = 0;
            while k < pieces.len()
                invariant
                    k <= pieces.len(),
                    artist_names(out@) == strings_view(pieces@).subrange(0, k as int),
                    forall|i: int| 0 <= i < out@.len() ==> (#[trigger] out@[i]).artist_id@.len()
                        == 36,
                decreases pieces.len() - k,
            {
                let name = pieces[k].clone();
                let a = Artists { artist_id: new_uuid(), artist_name: name };
                let ghost before = out@;
                let ghost ga = a;
                out.push(a);
                proof {
                    assert(artist_names(before).len() == before.len());
                    assert(artist_names(before).len() == k);
                    assert(out@ == before.push(ga));
                    assert forall|i: int| 0 <= i < k + 1 implies artist_names(out@)[i]
                        == strings_view(pieces@).subrange(0, k + 1)[i] by {
                        assert(out@.len() == k + 1);
                        assert(artist_names(out@)[i] == out@[i].artist_name@);
                        assert(strings_view(pieces@).subrange(0, k + 1)[i] == strings_view(
                            pieces@,
                        )[i]);
                        if i < k {
                            assert(out@[i] == before[i]);
                            assert(artist_names(before)[i] == before[i].artist_name@);
                            assert(strings_view(pieces@).subrange(0, k as int)[i] == strings_view(
                                pieces@,
                            )[i]);
                        } else {
                            assert(out@[i] == ga);
                            assert(ga.artist_name@ == pieces@[i]@);
                            assert(strings_view(pieces@)[i] == pieces@[i]@);
                        }
                    }
                    assert(artist_names(out@).len() == out@.len());
                    assert(artist_names(out@) =~= strings_view(pieces@).subrange(0, k + 1));
                }
                k = k + 1;
            }
            proof {
                assert(strings_view(pieces@).subrange(0, pieces@.len() as int) =~= strings_view(
                    pieces@,
                ));
            }
            out
        },
    }
}

/// Resolve a raw entry into a song.  A local entry needs the filesystem
/// probe `(canonical path, size)` of its location and is skipped (`None`)
/// when the probe found nothing; an external entry needs no probe.  Every
/// resolved song carries the playlist identifier that referenced it.
pub fn resolve_entry(entry: RawEntry, playlist_id: &String, probe: Option<(String, u32)>) -> (r:
    Option<Song>)
    requires
        probe matches Some(p) ==> p.0@.len() > 0,
    ensures
        (r is None) == (is_local_entry(entry@) && probe is None),
        r matches Some(song) ==> {
            &&& ov(song.playlist_id) == Some(playlist_id@)
            &&& song.duration_ms == entry@.duration_ms
            &&& ov(song.title) == entry@.title
            &&& artist_names(song.artists@) == entry_artist_names(entry@.artists)
            &&& (forall|i: int| 0 <= i < song.artists@.len() ==> (#[trigger] song.artists@[i]).artist_id@.len() == 36)
            &&& song.bitrate is None
            &&& song.sample_rate is None
            &&& song.album is None
            &&& song.year is None
            &&& song.genre is None
            &&& song.lyrics is None
            &&& song.track_no is None
            &&& song.high_path is None
            &&& song.low_path is None
            &&& if is_local_entry(entry@) {
                &&& probe matches Some((p, sz)) && ov(song.path) == Some(p@) && p@.len() > 0
                    && song.size == Some(sz)
                &&& song.song_type@ == "LOCAL"@
                &&& song._id@.len() == 36
                &&& song.playback_url is None
            } else {
                &&& Some(song.song_type@) == entry@.song_type
                &&& song._id@ == external_id(entry@)
                &&& ov(song.playback_url) == Some(entry@.location)
                &&& song.path is None
                &&& song.size is None
            }
        },
{
    let local = match &entry.song_type {
        None => true,
        Some(st) => str_eq(st.as_str(), "LOCAL"),
    };
    let artists = parse_artists(&entry.artists);
    if local {
        match probe {
            None => None,
            Some((p, sz)) => {
                Some(
                    Song {
                        _id: new_uuid(),
                        bitrate: None,
                        sample_rate: None,
                        duration_ms: entry.duration_ms,
                        path: Some(p),
                        size: Some(sz),
                        title: entry.title,
                        album: None,
                        artists,
                        year: None,
                        genre: None,
                        lyrics: None,
                        track_no: None,
                        high_path: None,
                        low_path: None,
                        song_type: "LOCAL".to_owned(),
                        playlist_id: Some(playlist_id.clone()),
                        playback_url: None,
                    },
                )
            },
        }
    } else {
        let st = match entry.song_type {
            Some(st) => st,
            None => {
                proof {
                    assert(false);
                }
                String::new()
            },
        };
        let mut id = st.clone();
        id.append(":");
        id.append(entry.location.as_str());
        Some(
            Song {
                _id: id,
                bitrate: None,
                sample_rate: None,
                duration_ms: entry.duration_ms,
                path: None,
                size: None,
                title: entry.title,
                album: None,
                artists,
                year: None,
                genre: None,
                lyrics: None,
                track_no: None,
                high_path: None,
                low_path: None,
                song_type: st,
                playlist_id: Some(playlist_id.clone()),
                playback_url: Some(entry.location),
            },
        )
    }
}


/// The song resolves to a filesystem item: routed through the worker pool
/// rather than straight to the song sink.
pub fn is_local_song(s: &Song) -> (r: bool)
    ensures
        r == (s.song_type@ == "LOCAL"@),
{
    str_eq(s.song_type.as_str(), "LOCAL")
}

/// The in-band failure published when a manifest cannot be scanned.
pub fn scan_failure_message(path: &str, detail: &str) -> (r: String)
    ensures
        r@ == "Failed to scan "@ + path@ + ": "@ + detail@,
{
    let mut msg: String = "Failed to scan ".to_owned();
    msg.append(path);
    msg.append(": ");
    msg.append(detail);
    proof {
        assert(msg@ =~= "Failed to scan "@ + path@ + ": "@ + detail@);
    }
    msg
}

} // verus!
