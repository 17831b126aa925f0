//! The extended-M3U parser and entry resolution.

use media_scanner::playlist_scanner::parse_artists;
use media_scanner::playlist_scanner::parse_playlist_lines;
use media_scanner::playlist_scanner::resolve_entry;

fn lines(v: &[&str]) -> Vec<String> {
    v.iter().map(|s| s.to_string()).collect()
}

#[test]
fn mixed_manifest_parses() {
    let input = lines(&[
        "#PLAYLIST:Mine",
        "#EXTINF:210.5,Alice;Bob - Hello",
        "./a.mp3",
        "#MOOSINF:YT",
        "dQw4w9WgXcQ",
    ]);
    let (title, entries) = parse_playlist_lines(&input).unwrap();
    assert_eq!(title, "Mine");
    assert_eq!(entries.len(), 2);

    // The directives apply to the next entry line and then reset.
    assert_eq!(entries[0].location, "./a.mp3");
    assert_eq!(entries[0].song_type, None);
    assert_eq!(entries[0].duration_ms, Some(210500));
    assert_eq!(entries[0].title.as_deref(), Some("Hello"));
    assert_eq!(entries[0].artists.as_deref(), Some("Alice;Bob"));

    assert_eq!(entries[1].location, "dQw4w9WgXcQ");
    assert_eq!(entries[1].song_type.as_deref(), Some("YT"));
    assert_eq!(entries[1].duration_ms, None);
    assert_eq!(entries[1].title, None);
    assert_eq!(entries[1].artists, None);
}

#[test]
fn external_entry_resolves_without_filesystem() {
    let input = lines(&["#EXTINF:210.5,Alice;Bob - Hello", "#MOOSINF:YT", "dQw4w9WgXcQ"]);
    let (_, mut entries) = parse_playlist_lines(&input).unwrap();
    let entry = entries.remove(0);
    let pid = "playlist-1".to_string();
    let song = resolve_entry(entry, &pid, None).unwrap();
    assert_eq!(song._id, "YT:dQw4w9WgXcQ");
    assert_eq!(song.song_type, "YT");
    assert_eq!(song.playback_url.as_deref(), Some("dQw4w9WgXcQ"));
    assert_eq!(song.playlist_id.as_deref(), Some("playlist-1"));
    assert_eq!(song.title.as_deref(), Some("Hello"));
    assert_eq!(song.duration_ms, Some(210500));
    let names: Vec<&str> = song.artists.iter().map(|a| a.artist_name.as_str()).collect();
    assert_eq!(names, vec!["Alice", "Bob"]);
    assert_ne!(song.artists[0].artist_id, song.artists[1].artist_id);
    assert_eq!(song.path, None);
    assert_eq!(song.size, None);
}

#[test]
fn local_entry_resolves_through_probe() {
    let input = lines(&["#EXTINF:12,A - B", "./a.mp3"]);
    let (_, mut entries) = parse_playlist_lines(&input).unwrap();
    let entry = entries.remove(0);
    let pid = "p".to_string();
    let song = resolve_entry(entry, &pid, Some(("/music/a.mp3".to_string(), 555))).unwrap();
    assert_eq!(song.song_type, "LOCAL");
    assert_eq!(song.path.as_deref(), Some("/music/a.mp3"));
    assert_eq!(song.size, Some(555));
    assert_eq!(song.playback_url, None);
    assert_eq!(song.playlist_id.as_deref(), Some("p"));
    assert_eq!(song._id.len(), 36);
}

#[test]
fn every_resolved_song_carries_the_playlist_id() {
    let input = lines(&[
        "#PLAYLIST:Mine",
        "#EXTINF:210.5,Alice;Bob - Hello",
        "./a.mp3",
        "#MOOSINF:YT",
        "dQw4w9WgXcQ",
    ]);
    let (title, entries) = parse_playlist_lines(&input).unwrap();
    assert_eq!(title, "Mine");
    let pid = "playlist-P".to_string();
    let mut resolved = 0;
    for entry in entries {
        let local = entry.song_type.is_none();
        let probe = if local { Some(("/music/a.mp3".to_string(), 555)) } else { None };
        let song = resolve_entry(entry, &pid, probe).unwrap();
        assert_eq!(song.playlist_id.as_deref(), Some("playlist-P"));
        resolved += 1;
    }
    assert_eq!(resolved, 2);
}

#[test]
fn missing_local_file_is_skipped() {
    let input = lines(&["gone.mp3"]);
    let (_, mut entries) = parse_playlist_lines(&input).unwrap();
    let entry = entries.remove(0);
    let pid = "p".to_string();
    assert!(resolve_entry(entry, &pid, None).is_none());
}

#[test]
fn file_scheme_prefix_is_stripped_once() {
    let input = lines(&["file:///music/a.mp3"]);
    let (_, entries) = parse_playlist_lines(&input).unwrap();
    assert_eq!(entries[0].location, "/music/a.mp3");
}

#[test]
fn other_comments_are_ignored_and_title_defaults_empty() {
    let input = lines(&["#EXTM3U", "#SOMETHING:else"]);
    let (title, entries) = parse_playlist_lines(&input).unwrap();
    assert_eq!(title, "");
    assert_eq!(entries.len(), 0);
}

#[test]
fn malformed_extinf_fails_the_playlist() {
    assert!(parse_playlist_lines(&lines(&["#EXTINF:nonsense,A - B"])).is_err());
    assert!(parse_playlist_lines(&lines(&["#EXTINF:12"])).is_err());
    assert!(parse_playlist_lines(&lines(&["#EXTINF:12,no dash here"])).is_err());
}

#[test]
fn extinf_tail_splits_on_first_dash_and_trims() {
    let input = lines(&["#EXTINF:1,  AC-DC - Back - In Black  ", "x.mp3"]);
    let (_, entries) = parse_playlist_lines(&input).unwrap();
    assert_eq!(entries[0].artists.as_deref(), Some("AC"));
    assert_eq!(entries[0].title.as_deref(), Some("DC - Back - In Black"));
}

#[test]
fn pending_fields_reset_after_each_entry() {
    let input = lines(&["#EXTINF:5,A - B", "one.mp3", "two.mp3"]);
    let (_, entries) = parse_playlist_lines(&input).unwrap();
    assert_eq!(entries[0].duration_ms, Some(5000));
    assert_eq!(entries[1].duration_ms, None);
    assert_eq!(entries[1].title, None);
}

#[test]
fn artists_split_on_semicolon_keeps_nonempty_pieces() {
    let a = parse_artists(&Some("Alice;;Bob;".to_string()));
    let names: Vec<&str> = a.iter().map(|x| x.artist_name.as_str()).collect();
    assert_eq!(names, vec!["Alice", "Bob"]);
    assert_eq!(parse_artists(&None).len(), 0);
}
