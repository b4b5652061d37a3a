//! Scan-stage and work-item tests.

use tessitura::identify::strip_title_suffix;
use tessitura::scan::{MusicFile, ScanStage};

#[test]
fn test_is_audio_file() {
    assert!(ScanStage::is_audio_file("/music/test.flac"));
    assert!(ScanStage::is_audio_file("/music/test.mp3"));
    assert!(ScanStage::is_audio_file("/music/test.ogg"));
    assert!(!ScanStage::is_audio_file("/music/test.txt"));
    assert!(!ScanStage::is_audio_file("/music/test"));
}

#[test]
fn test_music_file_creation() {
    let file = MusicFile::new("test-id", "/music/test.flac");
    assert_eq!(file.id(), "test-id");
    assert_eq!(file.path, "/music/test.flac");
}

#[test]
fn test_music_file_display() {
    let file = MusicFile::new("test-id", "/music/test.flac");
    let display = file.to_text();
    assert!(display.contains("test.flac"));
}

#[test]
fn test_music_file_work_item() {
    let work_item = MusicFile::new("test-id", "/test/path/music.flac");
    assert_eq!(work_item.id(), "test-id");
    assert_eq!(work_item.path, "/test/path/music.flac");
    let display = work_item.to_text();
    assert_eq!(display, "/test/path/music.flac");
}

#[test]
fn test_strip_title_suffix() {
    assert_eq!(
        strip_title_suffix("Dixie Chicken (2006 Remaster)"),
        "Dixie Chicken"
    );
    assert_eq!(
        strip_title_suffix("Snowball (24-bit Studio Master)"),
        "Snowball"
    );
    assert_eq!(
        strip_title_suffix("Blue Monday (Remix)"),
        "Blue Monday (Remix)"
    );
    assert_eq!(strip_title_suffix("Alive (Live)"), "Alive (Live)");
}

#[test]
fn test_strip_title_suffix_variants() {
    assert_eq!(
        strip_title_suffix("Song (Remastered 1999)"),
        "Song"
    );
    assert_eq!(
        strip_title_suffix("Song (Deluxe Edition)"),
        "Song"
    );
    assert_eq!(
        strip_title_suffix("Song (Expanded Edition)"),
        "Song"
    );
    assert_eq!(
        strip_title_suffix("Song (Anniversary Edition)"),
        "Song"
    );
    assert_eq!(
        strip_title_suffix("Song (Bonus Track Version)"),
        "Song"
    );
    assert_eq!(
        strip_title_suffix("Song (Studio Master)"),
        "Song"
    );
    assert_eq!(
        strip_title_suffix("Song (2006 remaster) (Deluxe Edition)"),
        "Song"
    );
    assert_eq!(
        strip_title_suffix("Song (Radio Edit)"),
        "Song (Radio Edit)"
    );
}
