//! Each failure class surfaces as its own error value, never as a panic.

use packdiag::gen::loc::generate_loc_ref;
use packdiag::gen::sounds::generate_sound_ref;
use packdiag::image_data::{ImageData, InvalidImage, PixelSize};
use packdiag::paths::FsEntry;
use packdiag::scan::images::{scan_images, slop_into_image_data, ImageRefError, ImageScanError};
use packdiag::scan::loc::InvalidEntry;
use packdiag::scan::sounds::{scan_sounds, SoundScanError};
use packdiag::slop::{Slop, SlopValue};

fn entry(path: &str, is_dir: bool) -> FsEntry {
    FsEntry { path: path.to_string(), is_dir }
}

fn strings(v: &[&str]) -> Vec<String> {
    v.iter().map(|s| s.to_string()).collect()
}

#[test]
fn probing_a_missing_file_is_an_error_value() {
    assert!(ImageData::open("no/such/file.png").is_err());
}

#[test]
fn unreadable_finding_renders_a_message() {
    let b = InvalidImage::Unreadable("Icons\\a.png".to_string());
    assert_eq!(b.message(), "Icons/a.png\t: Couldn't read as image.");
    let e = InvalidEntry::EmptyRecord("en-US-Mods.csv".to_string());
    assert_eq!(e.message(), "en-US-Mods.csv\t: Empty record.");
}

#[test]
fn image_snapshot_with_a_scalar_group_is_refused() {
    let mut slop = Slop::new();
    slop.insert_str("/Icons", "not a list");
    match slop_into_image_data(slop) {
        Err(ImageRefError::NotAList(k)) => assert_eq!(k, "/Icons"),
        _ => panic!("expected a scalar-group error"),
    }
}

#[test]
fn image_snapshot_with_a_malformed_entry_is_refused() {
    let mut slop = Slop::new();
    slop.insert("/Icons", SlopValue::List(strings(&["a.png:16x16", "what"])));
    match slop_into_image_data(slop) {
        Err(ImageRefError::BadEntry(e)) => assert_eq!(e, "what"),
        _ => panic!("expected a malformed-entry error"),
    }
}

#[test]
fn image_scan_requires_the_version_and_count() {
    let entries: Vec<FsEntry> = Vec::new();
    let mut wrong = Slop::new();
    wrong.insert_str("!version", "2");
    assert!(matches!(
        scan_images(&entries, "Images", wrong),
        Err(ImageScanError::Version(_))
    ));
    let mut counted = Slop::new();
    counted.insert_str("!version", "1");
    assert!(matches!(
        scan_images(&entries, "Images", counted),
        Err(ImageScanError::MissingCount)
    ));
    let mut bad = Slop::new();
    bad.insert_str("!version", "1");
    bad.insert_str("!count", "many");
    assert!(matches!(
        scan_images(&entries, "Images", bad),
        Err(ImageScanError::BadCount)
    ));
}

#[test]
fn sound_scan_requires_the_count_and_the_root() {
    let mut slop = Slop::new();
    slop.insert_str("!version", "0");
    let entries: Vec<FsEntry> = Vec::new();
    assert!(matches!(
        scan_sounds(&entries, "Sounds", slop),
        Err(SoundScanError::MissingCount)
    ));
    let mut ok = Slop::new();
    ok.insert_str("!version", "0");
    ok.insert_str("!count", "0");
    let outside = vec![entry("Other/drip.xnb", false)];
    assert!(matches!(
        scan_sounds(&outside, "Sounds", ok),
        Err(SoundScanError::NotUnderRoot(_))
    ));
}

#[test]
fn sound_reference_generation_rejects_files_outside_the_root() {
    let entries = vec![entry("Other/drip.wav", false)];
    assert!(generate_sound_ref(&entries, "Sounds").is_err());
}

#[test]
fn missing_aggregate_csv_is_a_record_source_error() {
    assert!(generate_loc_ref("no/such/Loc.csv").is_err());
}
