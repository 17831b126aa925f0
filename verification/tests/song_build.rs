//! Building a local song record from extracted values.

use media_scanner::structs::AudioProps;
use media_scanner::structs::TagData;
use media_scanner::utils::build_song;
use media_scanner::utils::choose_cover;
use media_scanner::utils::parse_lrc;

fn props() -> AudioProps {
    AudioProps { bitrate_kbps: Some(320), sample_rate: Some(44100), duration_secs: 185 }
}

#[test]
fn untagged_file_yields_properties_only() {
    let song = build_song(
        "/music/track.mp3".to_string(),
        1234,
        None,
        &props(),
        None,
        " / ",
        (None, None),
        None,
    );
    assert_eq!(song.path.as_deref(), Some("/music/track.mp3"));
    assert_eq!(song.size, Some(1234));
    assert_eq!(song.bitrate, Some(320000));
    assert_eq!(song.sample_rate, Some(44100));
    assert_eq!(song.duration_ms, Some(185000));
    assert_eq!(song.song_type, "LOCAL");
    assert_eq!(song.title, None);
    assert!(song.artists.is_empty());
    assert!(song.album.is_none());
    assert_eq!(song.year, None);
    assert_eq!(song.genre, None);
    assert_eq!(song.lyrics, None);
    assert_eq!(song.high_path, None);
    assert_eq!(song.low_path, None);
    assert_eq!(song._id.len(), 36);
}

#[test]
fn missing_bitrate_becomes_zero() {
    let p = AudioProps { bitrate_kbps: None, sample_rate: None, duration_secs: 0 };
    let song = build_song("/a.mp3".to_string(), 1, None, &p, None, ";", (None, None), None);
    assert_eq!(song.bitrate, Some(0));
    assert_eq!(song.sample_rate, None);
    assert_eq!(song.duration_ms, Some(0));
}

fn tag() -> TagData {
    TagData {
        title: Some("Hello".to_string()),
        album: Some("Greatest".to_string()),
        artist: Some("A / B / C".to_string()),
        year: Some(2021),
        genre: Some("Rock".to_string()),
        lyrics: None,
        track_no: Some("7".to_string()),
    }
}

#[test]
fn artist_split_yields_one_artist_per_piece() {
    let song = build_song(
        "/music/track.flac".to_string(),
        10,
        None,
        &props(),
        Some(tag()),
        " / ",
        (None, None),
        None,
    );
    let names: Vec<&str> = song.artists.iter().map(|a| a.artist_name.as_str()).collect();
    assert_eq!(names, vec!["A", "B", "C"]);
    assert_eq!(song.artists[0].artist_id.len(), 36);
    assert_ne!(song.artists[0].artist_id, song.artists[1].artist_id);
    assert_ne!(song.artists[1].artist_id, song.artists[2].artist_id);
}

#[test]
fn tagged_fields_carry_over() {
    let covers = (Some("/t/h.png".to_string()), Some("/t/l.png".to_string()));
    let song = build_song(
        "/music/track.flac".to_string(),
        10,
        Some("pl".to_string()),
        &props(),
        Some(tag()),
        " / ",
        covers,
        Some("fallback".to_string()),
    );
    assert_eq!(song.title.as_deref(), Some("Hello"));
    assert_eq!(song.year.as_deref(), Some("2021"));
    assert_eq!(song.genre, Some(vec!["Rock".to_string()]));
    assert_eq!(song.track_no.as_deref(), Some("7"));
    assert_eq!(song.playlist_id.as_deref(), Some("pl"));
    assert_eq!(song.high_path.as_deref(), Some("/t/h.png"));
    assert_eq!(song.low_path.as_deref(), Some("/t/l.png"));
    // No tag lyrics: the sidecar fills in.
    assert_eq!(song.lyrics.as_deref(), Some("fallback"));
    let album = song.album.unwrap();
    assert_eq!(album.album_name, "Greatest");
    assert_eq!(album.album_id.len(), 36);
    assert_eq!(album.album_cover_path_high.as_deref(), Some("/t/h.png"));
    assert_eq!(album.album_cover_path_low.as_deref(), Some("/t/l.png"));
}

#[test]
fn empty_sidecar_sets_empty_lyrics() {
    // A sidecar file with no timestamped lines parses to the empty string,
    // which still lands on the song.
    let mut t = tag();
    t.lyrics = None;
    let song = build_song(
        "/m.mp3".to_string(),
        1,
        None,
        &props(),
        Some(t),
        ";",
        (None, None),
        Some(parse_lrc("no stamps here")),
    );
    assert_eq!(song.lyrics.as_deref(), Some(""));
}

#[test]
fn tag_lyrics_win_over_sidecar() {
    let mut t = tag();
    t.lyrics = Some("from tag".to_string());
    let song = build_song(
        "/m.mp3".to_string(),
        1,
        None,
        &props(),
        Some(t),
        ";",
        (None, None),
        Some("sidecar".to_string()),
    );
    assert_eq!(song.lyrics.as_deref(), Some("from tag"));
}

#[test]
fn cover_heuristic_picks_first_cover_stem() {
    let entries = vec![
        ("notes".to_string(), "/d/notes.txt".to_string()),
        ("Cover-Art".to_string(), "/d/Cover-Art.jpg".to_string()),
        ("cover".to_string(), "/d/cover.png".to_string()),
    ];
    assert_eq!(choose_cover(&entries).as_deref(), Some("/d/Cover-Art.jpg"));
    let none = vec![("booklet".to_string(), "/d/booklet.pdf".to_string())];
    assert_eq!(choose_cover(&none), None);
}

#[test]
fn lrc_keeps_timestamped_lines_without_their_stamps() {
    let content = "[00:12.34]hello\nplain line\n[01:02.03][01:02.99]twice\n";
    assert_eq!(parse_lrc(content), "hello\ntwice\n");
}

#[test]
fn lrc_without_timestamps_is_empty() {
    let content = "just words\nmore words";
    assert_eq!(parse_lrc(content), "");
}

#[test]
fn lrc_timestamp_needs_a_dot_before_hundredths() {
    // `[MM:SS.hh]` exactly: any other separator is not a timestamp, so the
    // line is dropped.
    assert_eq!(parse_lrc("[00:12x34]line"), "");
    assert_eq!(parse_lrc("[00:12:34]line"), "");
    assert_eq!(parse_lrc("[00:12.34]line"), "line\n");
}
