//! The reference builders: grouping, snapshot shape, music IDs, loc keys.

use packdiag::gen::loc::loc_keys_text;
use packdiag::gen::music::{generate_music_ref, music_capture};
use packdiag::gen::scan_data::ScanData;
use packdiag::gen::sounds::{generate_sound_ref, SoundData};
use packdiag::gen::{generate_slop, register_item, InvalidEntry};
use packdiag::image_data::{ImageData, PixelSize};
use packdiag::paths::FsEntry;

fn entry(path: &str, is_dir: bool) -> FsEntry {
    FsEntry { path: path.to_string(), is_dir }
}

#[test]
fn scan_data_groups_by_key_in_insertion_order() {
    let mut data: ScanData<u32, String> = ScanData::new("items");
    data.push_valid("/a", 1);
    data.push_valid("/b", 2);
    data.push_valid("/a", 3);
    assert_eq!(data.valid_count(), 3);
    assert_eq!(data.invalid_count(), 0);
    assert_eq!(data.joined_count(), 3);
    assert_eq!(data.valid_entries.len(), 2);
    assert_eq!(data.valid_entries[0].0, "/a");
    assert_eq!(data.valid_entries[0].1, vec![1, 3]);
    assert_eq!(data.valid_entries[1].0, "/b");
    assert_eq!(data.valid_entries[1].1, vec![2]);
}

#[test]
fn invalid_side_table_is_keyed_by_path() {
    let mut data: ScanData<u32, String> = ScanData::new("items");
    data.push_invalid("p/one", "first".to_string());
    data.push_invalid("p/two", "second".to_string());
    data.push_invalid("p/one", "replaced".to_string());
    assert_eq!(data.invalid_count(), 2);
    assert_eq!(data.invalid_entries[0].0, "p/one");
    assert_eq!(data.invalid_entries[0].1, "replaced");
}

#[test]
fn image_snapshot_carries_version_count_and_groups() {
    let mut data: ScanData<ImageData, InvalidEntry> = ScanData::new("images");
    data.push_valid(
        "/Icons",
        ImageData { file_name: "a.png".to_string(), size: PixelSize { width: 16, height: 16 } },
    );
    data.push_valid(
        "/Icons",
        ImageData { file_name: "b.png".to_string(), size: PixelSize { width: 8, height: 32 } },
    );
    let slop = generate_slop(&data);
    assert_eq!(
        slop.serialize(),
        "!version=1\n!count=2\n/Icons{\n    a.png:16x16\n    b.png:8x32\n}\n"
    );
}

#[test]
fn register_item_files_unreadable_images_under_their_path() {
    let mut data: ScanData<ImageData, InvalidEntry> = ScanData::new("images");
    // no file exists at this path, so the probe fails and the path lands in
    // the invalid side-table
    register_item(&mut data, "Icons", "Images/Icons/missing.png");
    assert_eq!(data.valid_count(), 0);
    assert_eq!(data.invalid_count(), 1);
    assert_eq!(data.invalid_entries[0].0, "Images/Icons/missing.png");
    let InvalidEntry::InvalidImage(p) = &data.invalid_entries[0].1;
    assert_eq!(p, "Images/Icons/missing.png");
    assert_eq!(
        data.invalid_entries[0].1.message(),
        "Couldn't read as image: Images/Icons/missing.png"
    );
}

#[test]
fn sound_conversion_swaps_the_extension() {
    let d = SoundData::open("Sounds/Ambience/water drip.wav").unwrap();
    assert_eq!(d.path, "water drip.xnb");
}

#[test]
fn sound_reference_builder_groups_converted_names() {
    let entries = vec![
        entry("Sounds", true),
        entry("Sounds/drip.wav", false),
        entry("Sounds/Ambience/wind.wav", false),
        entry("Sounds/readme.txt", false),
    ];
    let (data, slop) = generate_sound_ref(&entries, "Sounds").unwrap();
    assert_eq!(data.valid_count(), 2);
    assert_eq!(data.invalid_count(), 1);
    assert_eq!(data.invalid_entries[0].0, "Sounds/readme.txt");
    assert_eq!(
        slop.serialize(),
        "!version=0\n!count=3\n/{\n    drip.xnb\n}\n/Ambience{\n    wind.xnb\n}\n"
    );
}

#[test]
fn music_capture_takes_the_leftmost_digit_run_before_wav() {
    assert_eq!(music_capture("12 drums.wav"), Some("12".to_string()));
    assert_eq!(music_capture("track 007 special.wav"), Some("007".to_string()));
    assert_eq!(music_capture("drums.wav"), None);
    assert_eq!(music_capture("12 drums.mp3"), None);
    assert_eq!(music_capture("9.wav"), None);
    assert_eq!(music_capture("a1b23 tune.wav"), Some("23".to_string()));
}

#[test]
fn music_reference_lists_ids_without_leading_zeros() {
    let entries = vec![
        entry("Wavebank", true),
        entry("Wavebank/12 drums.wav", false),
        entry("Wavebank/track 007.wav", false),
        entry("Wavebank/readme.txt", false),
    ];
    let text = generate_music_ref(&entries).unwrap();
    assert_eq!(text, "Music_12\nMusic_7\n");
}

#[test]
fn music_id_too_large_for_the_counters_is_an_error() {
    let entries = vec![entry("99999999999999999999999 tune.wav", false)];
    assert!(generate_music_ref(&entries).is_err());
}

#[test]
fn loc_keys_join_with_newlines_skipping_missing_columns() {
    let fields = vec![
        Some("Mods.Key.A".to_string()),
        None,
        Some("Mods.Key.B".to_string()),
    ];
    assert_eq!(loc_keys_text(&fields), "Mods.Key.A\nMods.Key.B");
    assert_eq!(loc_keys_text(&Vec::new()), "");
}
