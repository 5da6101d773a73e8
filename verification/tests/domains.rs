//! The domain models: image entries, sound conversion, the version gate.

use packdiag::image_data::{ImageData, PixelSize};
use packdiag::scanner::ItemStatus;
use packdiag::slop::{Slop, SlopValue};
use packdiag::static_file_data::{validate_slop, SlopValidationError, IMAGE_REF_VERSION};
use packdiag::slopx::{parse_string, ParseStringError};

#[test]
fn image_encodes_as_name_and_size() {
    let d = ImageData {
        file_name: "a.png".to_string(),
        size: PixelSize { width: 16, height: 16 },
    };
    assert_eq!(d.encode(), "a.png:16x16");
}

#[test]
fn image_decodes_from_its_text_form() {
    let d = ImageData::from_str("a.png:16x16").unwrap();
    assert_eq!(d.file_name, "a.png");
    assert_eq!(d.size, PixelSize { width: 16, height: 16 });
}

#[test]
fn image_decode_splits_on_the_last_separators() {
    let d = ImageData::from_str("we:ird/x.png:640x480").unwrap();
    assert_eq!(d.file_name, "we:ird/x.png");
    assert_eq!(d.size, PixelSize { width: 640, height: 480 });
}

#[test]
fn image_decode_fails_not_panics_on_malformed_text() {
    assert!(ImageData::from_str("no-colon").is_err());
    assert!(ImageData::from_str("a.png:16").is_err());
    assert!(ImageData::from_str("a.png:x16").is_err());
    assert!(ImageData::from_str("a.png:16x").is_err());
    assert!(ImageData::from_str("a.png:wxh").is_err());
}

#[test]
fn image_validation_is_name_and_size_exact() {
    let d = ImageData {
        file_name: "a.png".to_string(),
        size: PixelSize { width: 16, height: 16 },
    };
    assert!(d.validate_with_size("a.png", PixelSize { width: 16, height: 16 }, "/Icons/a.png")
        .is_ok());
    match d.validate_with_size("a.png", PixelSize { width: 16, height: 17 }, "/Icons/a.png") {
        Err(packdiag::image_data::InvalidImage::BadSize(p, got, expected)) => {
            assert_eq!(p, "/Icons/a.png");
            assert_eq!(got, PixelSize { width: 16, height: 17 });
            assert_eq!(expected, PixelSize { width: 16, height: 16 });
        },
        _ => panic!("expected a size finding"),
    }
    match d.validate_with_size("b.png", PixelSize { width: 16, height: 16 }, "/Icons/b.png") {
        Err(packdiag::image_data::InvalidImage::BadName(p)) => assert_eq!(p, "/Icons/b.png"),
        _ => panic!("expected a name finding"),
    }
}

#[test]
fn bad_size_message_names_both_sizes() {
    let b = packdiag::image_data::InvalidImage::BadSize(
        "Icons\\a.png".to_string(),
        PixelSize { width: 16, height: 17 },
        PixelSize { width: 16, height: 16 },
    );
    assert_eq!(b.message(), "Icons/a.png\t: Wrong image size 16x17. (expected 16x16)");
}

#[test]
fn sound_source_converts_to_packaged_name() {
    let d = packdiag::gen::sounds::SoundData::open("Sounds/drip.wav").unwrap();
    assert_eq!(d.path, "drip.xnb");
}

#[test]
fn sound_source_with_other_extension_is_invalid() {
    assert!(packdiag::gen::sounds::SoundData::open("Sounds/drip.mp3").is_err());
    assert!(packdiag::gen::sounds::SoundData::open("Sounds/.wav").is_err());
    assert!(packdiag::gen::sounds::SoundData::open("Sounds/noext").is_err());
}

#[test]
fn version_gate_accepts_only_the_expected_version() {
    let mut slop = Slop::new();
    slop.insert_str("!version", "1");
    assert!(validate_slop(&slop, IMAGE_REF_VERSION).is_ok());
    assert_eq!(
        validate_slop(&slop, 0),
        Err(SlopValidationError::VersionMismatch(0, 1))
    );
}

#[test]
fn version_gate_rejects_missing_or_malformed_versions() {
    let empty = Slop::new();
    assert_eq!(validate_slop(&empty, 1), Err(SlopValidationError::MissingVersion));
    let mut bad = Slop::new();
    bad.insert_str("!version", "one");
    assert_eq!(validate_slop(&bad, 1), Err(SlopValidationError::MalformedVersion));
    let mut huge = Slop::new();
    huge.insert_str("!version", "300");
    assert_eq!(validate_slop(&huge, 1), Err(SlopValidationError::MalformedVersion));
    let mut listy = Slop::new();
    listy.insert("!version", SlopValue::List(Vec::new()));
    assert_eq!(validate_slop(&listy, 1), Err(SlopValidationError::NonScalarVersion));
}

#[test]
fn parse_string_reads_counters() {
    let mut slop = Slop::new();
    slop.insert_str("!count", "42");
    assert_eq!(parse_string(&slop, "!count"), Ok(Some(42)));
    assert_eq!(parse_string(&slop, "!missing"), Ok(None));
    let mut bad = Slop::new();
    bad.insert_str("!count", "4 2");
    assert_eq!(parse_string(&bad, "!count"), Err(ParseStringError::NotANumber));
    let mut listy = Slop::new();
    listy.insert("!count", SlopValue::List(Vec::new()));
    assert_eq!(parse_string(&listy, "!count"), Err(ParseStringError::NotAString));
}

#[test]
fn item_status_is_valid_only_for_valid() {
    assert!(ItemStatus::<u32>::Valid.is_valid());
    assert!(!ItemStatus::<u32>::Invalid(3).is_valid());
    assert!(!ItemStatus::<u32>::Ignored.is_valid());
}
