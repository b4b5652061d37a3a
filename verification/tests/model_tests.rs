//! Entity-model and identity tests.

use tessitura::ids::WorkId;
use tessitura::model::{AudioFormat, Item};

#[test]
fn test_work_id_generation() {
    let id1 = WorkId::new();
    let id2 = WorkId::new();
    assert_ne!(id1, id2);
}

#[test]
fn test_work_id_display() {
    let id = WorkId::new();
    let display = id.to_text();
    assert!(!display.is_empty());
}

#[test]
fn test_work_id_text_shape() {
    let id = WorkId::from_bits(0);
    assert_eq!(id.to_text(), "00000000-0000-0000-0000-000000000000");
    let id2 = WorkId::from_bits(u128::MAX);
    assert_eq!(id2.to_text(), "ffffffff-ffff-ffff-ffff-ffffffffffff");
    assert_eq!(id2.as_bits(), u128::MAX);
}

#[test]
fn test_audio_format_from_extension() {
    assert_eq!(AudioFormat::from_extension("flac"), AudioFormat::Flac);
    assert_eq!(AudioFormat::from_extension("FLAC"), AudioFormat::Flac);
    assert_eq!(AudioFormat::from_extension("mp3"), AudioFormat::Mp3);
    assert_eq!(AudioFormat::from_extension("ogg"), AudioFormat::Ogg);
    assert_eq!(AudioFormat::from_extension("wav"), AudioFormat::Wav);
    assert_eq!(AudioFormat::from_extension("m4a"), AudioFormat::Aac);
    assert_eq!(AudioFormat::from_extension("xyz"), AudioFormat::Other);
}

#[test]
fn test_item_new_is_unidentified() {
    let item = Item::new("/music/test.flac", AudioFormat::Flac, 1024, 0);
    assert_eq!(item.file_path, "/music/test.flac");
    assert_eq!(item.format, AudioFormat::Flac);
    assert_eq!(item.file_size, 1024);
    assert!(!item.is_identified());
    assert!(item.fingerprint.is_none());
}
