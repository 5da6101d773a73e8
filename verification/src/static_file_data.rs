//! Fixed file names, format versions, display caps, and the version gate
//! every snapshot must pass before any entry is read.

use vstd::prelude::*;

use crate::slop::{Slop, SlopValueView, spec_get};
use crate::text::{all_digits, spec_digits_val, parse_u64};

verus! {

/// The type for file versions.
pub type Version = u8;

/// The version of the image reference file.
pub const IMAGE_REF_VERSION: Version = 1;

/// The version of the sound reference file.
pub const SOUND_REF_VERSION: Version = 0;

/// The maximum number of items a report may list.
pub const MAX_LIST_SIZE: usize = 100;

/// The reserved key under which a snapshot stores its format version.
pub fn version_key() -> (r: &'static str)
    ensures
        r@ == "!version"@,
{
    "!version"
}

/// The reserved key under which a snapshot stores its total entry count.
pub fn count_key() -> (r: &'static str)
    ensures
        r@ == "!count"@,
{
    "!count"
}

/// The file name of the image reference file.
pub fn image_ref_name() -> (r: &'static str)
    ensures
        r@ == "images.slop"@,
{
    "images.slop"
}

/// The file name of the CSV file with all the localization entries.
pub fn all_loc_csv_name() -> (r: &'static str)
    ensures
        r@ == "Loc.csv"@,
{
    "Loc.csv"
}

/// The file name of the text file with only the translation keys.
pub fn loc_ref_name() -> (r: &'static str)
    ensures
        r@ == "loc_keys.txt"@,
{
    "loc_keys.txt"
}

/// The file name of the text file with the music file names.
pub fn music_ref_name() -> (r: &'static str)
    ensures
        r@ == "music.txt"@,
{
    "music.txt"
}

/// The file name of the sound reference file.
pub fn sound_ref_name() -> (r: &'static str)
    ensures
        r@ == "sounds.slop"@,
{
    "sounds.slop"
}

/// Why a snapshot failed the version gate.
#[derive(Debug, Clone, Copy, PartialEq, Eq, Structural)]
pub enum SlopValidationError {
    /// No `!version` entry at all.
    MissingVersion,
    /// The `!version` entry holds a list, not a scalar.
    NonScalarVersion,
    /// The `!version` scalar is not an unsigned decimal number in range.
    MalformedVersion,
    /// A well-formed version that differs from the expected one
    /// (expected, found).
    VersionMismatch(Version, Version),
}

/// The outcome of the version gate for a snapshot and expected version.
pub open spec fn spec_validate_slop(
    s: Seq<(Seq<char>, SlopValueView)>,
    expected: Version,
) -> Result<(), SlopValidationError> {
    match spec_get(s, "!version"@) {
        None => Err(SlopValidationError::MissingVersion),
        Some(SlopValueView::List(_)) => Err(SlopValidationError::NonScalarVersion),
        Some(SlopValueView::Str(v)) => if !(v.len() > 0 && all_digits(v) && spec_digits_val(v)
            <= u8::MAX) {
            Err(SlopValidationError::MalformedVersion)
        } else if spec_digits_val(v) == expected {
            Ok(())
        } else {
            Err(
                SlopValidationError::VersionMismatch(
                    expected,
                    spec_digits_val(v) as u8,
                ),
            )
        },
    }
}

/// Checks that the snapshot carries `!version` equal to `expected_version`.
/// Every validator calls this before looking at any entry; an error here is
/// fatal for the domain.
pub fn validate_slop(slop: &Slop, expected_version: Version) -> (r: Result<
    (),
    SlopValidationError,
>)
    ensures
        r == spec_validate_slop(slop@, expected_version),
{
    let value = match slop.get(version_key()) {
        None => {
            return Err(SlopValidationError::MissingVersion);
        },
        Some(v) => v,
    };
    match value {
        crate::slop::SlopValue::List(_) => Err(SlopValidationError::NonScalarVersion),
        crate::slop::SlopValue::Str(v) => match parse_u64(v.as_str()) {
            None => Err(SlopValidationError::MalformedVersion),
            Some(n) => {
                if n > 255 {
                    Err(SlopValidationError::MalformedVersion)
                } else if (n as u8) == expected_version {
                    Ok(())
                } else {
                    Err(SlopValidationError::VersionMismatch(expected_version, n as u8))
                }
            },
        },
    }
}

/// A snapshot is accepted exactly when it holds a `!version` scalar that
/// reads as the expected number; any snapshot whose version differs — or
/// is missing, or malformed — is always rejected, so no entry of it is
/// ever looked up.
pub proof fn lemma_version_gate(s: Seq<(Seq<char>, SlopValueView)>, expected: Version)
    ensures
        spec_validate_slop(s, expected) is Ok <==> (spec_get(s, "!version"@) matches Some(
            SlopValueView::Str(v),
        ) && v.len() > 0 && all_digits(v) && spec_digits_val(v) == expected),
{
}

} // verus!
