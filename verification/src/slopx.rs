//! Reading typed values out of a [`Slop`] store.

use vstd::prelude::*;

use crate::slop::{Slop, SlopValueView, spec_get};
use crate::text::{all_digits, spec_digits_val, parse_u64};

verus! {

/// Why a keyed value could not be read as a number.
#[derive(Debug, Clone, Copy, PartialEq, Eq, Structural)]
pub enum ParseStringError {
    /// The key holds a list, not a scalar.
    NotAString,
    /// The scalar is not an unsigned decimal number in range.
    NotANumber,
}

/// What [`parse_string`] returns for a store and key.
pub open spec fn spec_parse_string(s: Seq<(Seq<char>, SlopValueView)>, key: Seq<char>) -> Result<
    Option<int>,
    ParseStringError,
> {
    match spec_get(s, key) {
        None => Ok(None),
        Some(SlopValueView::List(_)) => Err(ParseStringError::NotAString),
        Some(SlopValueView::Str(v)) => if v.len() > 0 && all_digits(v) && spec_digits_val(v)
            <= u64::MAX {
            Ok(Some(spec_digits_val(v)))
        } else {
            Err(ParseStringError::NotANumber)
        },
    }
}

/// Reads the scalar under `key` as an unsigned decimal number.
/// `Ok(None)` when the key is absent; an error when the key holds a list or
/// a non-numeric scalar.
pub fn parse_string(slop: &Slop, key: &str) -> (r: Result<Option<u64>, ParseStringError>)
    ensures
        match r {
            Ok(None) => spec_parse_string(slop@, key@) == Ok::<Option<int>, ParseStringError>(
                None,
            ),
            Ok(Some(v)) => spec_parse_string(slop@, key@) == Ok::<Option<int>, ParseStringError>(
                Some(v as int),
            ),
            Err(e) => spec_parse_string(slop@, key@) == Err::<Option<int>, ParseStringError>(e),
        },
{
    match slop.get(key) {
        None => Ok(None),
        Some(crate::slop::SlopValue::List(_)) => Err(ParseStringError::NotAString),
        Some(crate::slop::SlopValue::Str(v)) => match parse_u64(v.as_str()) {
            Some(n) => Ok(Some(n)),
            None => Err(ParseStringError::NotANumber),
        },
    }
}

} // verus!
