//! Orchestration helpers: thread clamping, sequence numbers, delivery
//! numbering, and the error type.

use media_scanner::error::ScanError;
use media_scanner::scanner::get_id;
use media_scanner::scanner::number_song;
use media_scanner::scanner::thread_count;
use media_scanner::structs::AudioProps;
use media_scanner::utils::build_song;

#[test]
fn thread_hint_is_clamped() {
    assert_eq!(thread_count(0, 8), 8);
    assert_eq!(thread_count(-3, 8), 8);
    assert_eq!(thread_count(4, 8), 4);
    assert_eq!(thread_count(99, 8), 8);
    assert_eq!(thread_count(1, 1), 1);
}

#[test]
fn ids_count_up_from_the_start() {
    let mut counter: u32 = 1;
    assert_eq!(get_id(&mut counter), 1);
    assert_eq!(get_id(&mut counter), 2);
    assert_eq!(get_id(&mut counter), 3);
    assert_eq!(counter, 4);
}

#[test]
fn deliveries_are_numbered_one_up_with_the_total() {
    let props = AudioProps { bitrate_kbps: None, sample_rate: None, duration_secs: 1 };
    let mut counter: u32 = 1;
    let mut currents: Vec<u32> = Vec::new();
    for i in 0..3 {
        let song = build_song(
            format!("/m/{}.mp3", i),
            1,
            None,
            &props,
            None,
            ";",
            (None, None),
            None,
        );
        let d = number_song(song, 3, &mut counter);
        assert_eq!(d.size, 3);
        currents.push(d.current);
    }
    assert_eq!(currents, vec![1, 2, 3]);
}

#[test]
fn error_messages_carry_their_text() {
    assert_eq!(ScanError::Message("boom".to_string()).message(), "boom");
    assert_eq!(ScanError::IOError("gone".to_string()).message(), "gone");
    assert_eq!(ScanError::ParseFloatError("bad".to_string()).message(), "bad");
}

#[test]
fn malformed_duration_is_a_parse_error() {
    let lines = vec!["#EXTINF:abc,A - B".to_string()];
    match media_scanner::playlist_scanner::parse_playlist_lines(&lines) {
        Err(ScanError::ParseFloatError(_)) => {},
        _ => panic!("expected a numeric-parse failure"),
    }
}

#[test]
fn extinf_without_dash_is_a_message_error() {
    let lines = vec!["#EXTINF:12,no separator".to_string()];
    match media_scanner::playlist_scanner::parse_playlist_lines(&lines) {
        Err(ScanError::Message(_)) => {},
        _ => panic!("expected a malformed-directive failure"),
    }
}

#[test]
fn playlist_failures_are_worded_in_band() {
    let msg = media_scanner::playlist_scanner::scan_failure_message("/m/mix.m3u", "bad duration");
    assert_eq!(msg, "Failed to scan /m/mix.m3u: bad duration");
}
