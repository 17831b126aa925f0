//! Discovery classification: which files count as audio, which as playlists.

use media_scanner::structs::FileList;
use media_scanner::utils::push_classified;

#[test]
fn empty_file_list_is_empty() {
    let list = FileList::new();
    assert_eq!(list.file_list.len(), 0);
    assert_eq!(list.playlist_list.len(), 0);
}

#[test]
fn audio_file_is_classified_with_size() {
    let mut list = FileList::new();
    push_classified(&mut list, &"/music/track.mp3".to_string(), "track.mp3", 1234);
    assert_eq!(list.file_list.len(), 1);
    assert_eq!(list.file_list[0].0, "/music/track.mp3");
    assert_eq!(list.file_list[0].1, 1234);
    assert_eq!(list.playlist_list.len(), 0);
}

#[test]
fn playlist_file_is_classified() {
    let mut list = FileList::new();
    push_classified(&mut list, &"/music/mix.m3u".to_string(), "mix.m3u", 77);
    assert_eq!(list.file_list.len(), 0);
    assert_eq!(list.playlist_list, vec!["/music/mix.m3u".to_string()]);
}

#[test]
fn m3u8_is_a_playlist() {
    let mut list = FileList::new();
    push_classified(&mut list, &"/music/mix.m3u8".to_string(), "mix.m3u8", 77);
    assert_eq!(list.playlist_list.len(), 1);
}

#[test]
fn extension_match_is_case_insensitive() {
    let mut list = FileList::new();
    push_classified(&mut list, &"/music/LOUD.MP3".to_string(), "LOUD.MP3", 9);
    push_classified(&mut list, &"/music/song.FlAc".to_string(), "song.FlAc", 10);
    assert_eq!(list.file_list.len(), 2);
}

#[test]
fn unknown_extension_is_skipped() {
    let mut list = FileList::new();
    push_classified(&mut list, &"/music/readme.txt".to_string(), "readme.txt", 5);
    push_classified(&mut list, &"/music/noext".to_string(), "noext", 5);
    assert_eq!(list.file_list.len(), 0);
    assert_eq!(list.playlist_list.len(), 0);
}

#[test]
fn all_audio_extensions_are_recognised() {
    for ext in ["flac", "mp3", "ogg", "m4a", "webm", "wav", "wv", "aac", "opus"] {
        let mut list = FileList::new();
        let path = format!("/m/a.{}", ext);
        let name = format!("a.{}", ext);
        push_classified(&mut list, &path, &name, 1);
        assert_eq!(list.file_list.len(), 1, "extension {} should be audio", ext);
    }
}

#[test]
fn extension_match_is_substring_based() {
    // The recogniser looks for the token anywhere inside the extension.
    let mut list = FileList::new();
    push_classified(&mut list, &"/m/a.mp3x".to_string(), "a.mp3x", 1);
    assert_eq!(list.file_list.len(), 1);
}

#[test]
fn hidden_file_without_extension_is_skipped() {
    let mut list = FileList::new();
    push_classified(&mut list, &".mp3".to_string(), ".mp3", 1);
    assert_eq!(list.file_list.len(), 0);
}
