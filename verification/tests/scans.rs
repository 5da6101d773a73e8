//! The per-domain validators over concrete snapshots and walked trees.

use packdiag::paths::FsEntry;
use packdiag::scan::loc::{scan_csv_rows, validate_entry, scan_localization_files, LocFileType};
use packdiag::scan::music::{scan_music, validate_song, open_music_ref, InvalidMusic};
use packdiag::scan::sounds::{scan_sounds, validate_sound, InvalidSound};
use packdiag::scanner::ItemStatus;
use packdiag::slop::{Slop, SlopValue};

fn entry(path: &str, is_dir: bool) -> FsEntry {
    FsEntry { path: path.to_string(), is_dir }
}

fn strings(v: &[&str]) -> Vec<String> {
    v.iter().map(|s| s.to_string()).collect()
}

fn sound_slop(count: &str, key: &str, names: &[&str]) -> Slop {
    let mut slop = Slop::new();
    slop.insert_str("!version", "0");
    slop.insert_str("!count", count);
    slop.insert(key, SlopValue::List(strings(names)));
    slop
}

#[test]
fn packaged_sound_name_is_present() {
    let slop = sound_slop("1", "/", &["drip.xnb"]);
    let entries = vec![entry("Sounds/drip.xnb", false)];
    let (scanner, count) = scan_sounds(&entries, "Sounds", slop).unwrap();
    assert_eq!(count, 1);
    assert_eq!(scanner.valid_count, 1);
    assert_eq!(scanner.invalid_items.len(), 0);
}

#[test]
fn source_sound_name_is_rejected() {
    let slop = sound_slop("1", "/", &["drip.xnb"]);
    let entries = vec![entry("Sounds/drip.wav", false)];
    let (scanner, _) = scan_sounds(&entries, "Sounds", slop).unwrap();
    assert_eq!(scanner.valid_count, 0);
    assert_eq!(scanner.invalid_items.len(), 1);
    match &scanner.invalid_items[0] {
        InvalidSound::BadExtension(p) => assert_eq!(p, "drip.wav"),
        _ => panic!("expected a format finding"),
    }
}

#[test]
fn unknown_sound_name_is_a_name_finding() {
    let slop = sound_slop("1", "/", &["drip.xnb"]);
    let entries = vec![entry("Sounds/plop.xnb", false)];
    let (scanner, _) = scan_sounds(&entries, "Sounds", slop).unwrap();
    match &scanner.invalid_items[0] {
        InvalidSound::BadName(p) => assert_eq!(p, "plop.xnb"),
        _ => panic!("expected a name finding"),
    }
}

#[test]
fn sound_scan_fails_on_wrong_version() {
    let mut slop = Slop::new();
    slop.insert_str("!version", "1");
    slop.insert_str("!count", "0");
    let entries: Vec<FsEntry> = Vec::new();
    assert!(scan_sounds(&entries, "Sounds", slop).is_err());
}

#[test]
fn validate_sound_looks_up_directory_and_name() {
    let data = vec![("/Ambience".to_string(), strings(&["wind.xnb"]))];
    let st = validate_sound("Sounds/Ambience/wind.xnb", "Ambience/wind.xnb", "Sounds", &data)
        .unwrap();
    assert!(st.is_valid());
    let st = validate_sound("Sounds/Other/wind.xnb", "Other/wind.xnb", "Sounds", &data).unwrap();
    assert!(!st.is_valid());
}

#[test]
fn songs_validate_by_extension_and_stripped_name() {
    let refs = strings(&["Music_7", "Music_12"]);
    assert!(validate_song("Music/Music_7.mp3", &refs).is_valid());
    assert!(validate_song("Music/Music_12.ogg", &refs).is_valid());
    assert!(validate_song("Music/Music_12.wav", &refs).is_valid());
    match validate_song("Music/Music_12.flac", &refs) {
        ItemStatus::Invalid(InvalidMusic::BadExtension(p)) => {
            assert_eq!(p, "Music/Music_12.flac")
        },
        _ => panic!("expected a format finding"),
    }
    match validate_song("Music/Music_9.mp3", &refs) {
        ItemStatus::Invalid(InvalidMusic::BadName(p)) => assert_eq!(p, "Music/Music_9.mp3"),
        _ => panic!("expected a name finding"),
    }
}

#[test]
fn music_scan_counts_by_classification() {
    let refs = open_music_ref("Music_7\nMusic_12");
    let entries = vec![
        entry("Music", true),
        entry("Music/desktop.ini", false),
        entry("Music/Music_7.mp3", false),
        entry("Music/Music_9.mp3", false),
    ];
    let scanner = scan_music(&entries, &refs);
    assert_eq!(scanner.valid_count, 1);
    assert_eq!(scanner.invalid_items.len(), 1);
}

#[test]
fn loc_file_types_follow_the_name_pattern() {
    assert_eq!(LocFileType::from_file_name("en-US-Mods.csv"), Some(LocFileType::Csv));
    assert_eq!(LocFileType::from_file_name("zh-Hans-Mods.json"), Some(LocFileType::Json));
    assert_eq!(LocFileType::from_file_name("de-DE-.csv"), Some(LocFileType::Csv));
    assert_eq!(LocFileType::from_file_name("en-USMods.csv"), None);
    assert_eq!(LocFileType::from_file_name("xx-YY-Mods.csv"), None);
    assert_eq!(LocFileType::from_file_name("en-US-Mods.txt"), None);
}

#[test]
fn comment_rows_are_ignored_not_invalid() {
    let refs = strings(&["Mods.Key.A"]);
    let st = validate_entry("en-US-Mods.csv", "#legacy_key", &refs);
    assert!(matches!(st, ItemStatus::Ignored));
    // even when the comment key does stand in the reference, the row never
    // lands among the invalid findings
    let refs2 = strings(&["#legacy_key"]);
    let st2 = validate_entry("en-US-Mods.csv", "#legacy_key", &refs2);
    assert!(!matches!(st2, ItemStatus::Invalid(_)));
}

#[test]
fn loc_rows_validate_against_the_key_set() {
    let refs = strings(&["Mods.Key.A", "Mods.Key.B"]);
    assert!(validate_entry("f.csv", "Mods.Key.A", &refs).is_valid());
    assert!(matches!(
        validate_entry("f.csv", "Mods.Key.C", &refs),
        ItemStatus::Invalid(_)
    ));
}

#[test]
fn scalar_group_in_the_sound_snapshot_is_an_error() {
    let mut slop = Slop::new();
    slop.insert_str("!version", "0");
    slop.insert_str("!count", "0");
    slop.insert_str("/Ambience", "not a list");
    let entries: Vec<FsEntry> = Vec::new();
    assert!(scan_sounds(&entries, "Sounds", slop).is_err());
}

#[test]
fn music_reference_set_keeps_each_name_once() {
    let refs = open_music_ref("Music_7\nMusic_7\nMusic_12");
    assert_eq!(refs.len(), 2);
    assert!(validate_song("Music/Music_7.mp3", &refs).is_valid());
}

#[test]
fn csv_rows_fold_into_the_scanner_exactly() {
    let refs = strings(&["Mods.Key.A"]);
    let mut scanner: packdiag::scanner::Scanner<packdiag::scan::loc::InvalidEntry> =
        packdiag::scanner::Scanner::new("entries");
    let rows = vec![
        Some("Mods.Key.A".to_string()),
        Some("#comment".to_string()),
        None,
        Some("Mods.Key.B".to_string()),
    ];
    scan_csv_rows(&mut scanner, "en-US-Mods.csv", &rows, &refs).unwrap();
    assert_eq!(scanner.valid_count, 1);
    assert_eq!(scanner.invalid_items.len(), 2);
    assert_eq!(scanner.invalid_items[0].message(), "en-US-Mods.csv\t: Empty record.");
    assert_eq!(
        scanner.invalid_items[1].message(),
        "en-US-Mods.csv\t: The key `Mods.Key.B` was not found in the reference file."
    );
}

#[test]
fn loc_scan_lists_unmatched_names() {
    let refs = strings(&["Mods.Key.A"]);
    let entries = vec![
        entry("Localization", true),
        entry("Localization/readme.txt", false),
        entry("Localization/en-US-Mods.json", false),
    ];
    let out = scan_localization_files(&entries, &refs).unwrap();
    assert_eq!(out.invalid_file_names, vec!["readme.txt".to_string()]);
    assert_eq!(out.skipped_json, vec!["en-US-Mods.json".to_string()]);
    assert_eq!(out.scanner.valid_count, 0);
}
