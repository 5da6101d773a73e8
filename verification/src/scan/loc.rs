//! The localization scan: candidate files must carry a locale tag and a
//! known extension; the rows of each CSV candidate are checked against the
//! translation-key reference, comment rows aside.

use vstd::prelude::*;

use crate::gen::loc::fields_view;
use crate::paths;
use crate::paths::{FsEntry, entries_view, spec_file_name};
use crate::records::{CsvReadError, read_csv_first_fields};
use crate::scanner::{ItemStatus, Scanner};
use crate::text::{
    strs_view, spec_contains_str, vec_contains_str, spec_starts_with, spec_ends_with,
    str_starts_with, str_ends_with,
};

verus! {

/// The possible types of localization files.
#[derive(Debug, Clone, Copy, PartialEq, Eq, Structural)]
pub enum LocFileType {
    Csv,
    Json,
}

/// Length of the locale tag opening the name, or `-1`: one of the nine
/// supported locale codes, which must be followed by `-`.
pub open spec fn spec_loc_tag_len(name: Seq<char>) -> int {
    if spec_starts_with(name, "en-US-"@) || spec_starts_with(name, "de-DE-"@) || spec_starts_with(
        name,
        "it-IT-"@,
    ) || spec_starts_with(name, "fr-FR-"@) || spec_starts_with(name, "es-ES-"@)
        || spec_starts_with(name, "ru-RU-"@) || spec_starts_with(name, "pt-BR-"@)
        || spec_starts_with(name, "pl-PL-"@) {
        5
    } else if spec_starts_with(name, "zh-Hans-"@) {
        7
    } else {
        -1
    }
}

/// The type of a candidate file name: a locale tag, a dash, anything, and
/// a `.csv` or `.json` ending.
pub open spec fn spec_loc_file_type(name: Seq<char>) -> Option<LocFileType> {
    let t = spec_loc_tag_len(name);
    if t < 0 {
        None
    } else if spec_ends_with(name, ".csv"@) && name.len() >= t + 1 + 4 {
        Some(LocFileType::Csv)
    } else if spec_ends_with(name, ".json"@) && name.len() >= t + 1 + 5 {
        Some(LocFileType::Json)
    } else {
        None
    }
}

impl LocFileType {
    /// Returns the type of the file name, or `None` if the name matches no
    /// supported pattern.
    pub fn from_file_name(file_name: &str) -> (r: Option<LocFileType>)
        ensures
            r == spec_loc_file_type(file_name@),
    {
        let tag: usize = if str_starts_with(file_name, "en-US-") || str_starts_with(
            file_name,
            "de-DE-",
        ) || str_starts_with(file_name, "it-IT-") || str_starts_with(file_name, "fr-FR-")
            || str_starts_with(file_name, "es-ES-") || str_starts_with(file_name, "ru-RU-")
            || str_starts_with(file_name, "pt-BR-") || str_starts_with(file_name, "pl-PL-") {
            5
        } else if str_starts_with(file_name, "zh-Hans-") {
            7
        } else {
            return None;
        };
        proof {
            reveal_strlit("en-US-");
            reveal_strlit("de-DE-");
            reveal_strlit("it-IT-");
            reveal_strlit("fr-FR-");
            reveal_strlit("es-ES-");
            reveal_strlit("ru-RU-");
            reveal_strlit("pt-BR-");
            reveal_strlit("pl-PL-");
            reveal_strlit("zh-Hans-");
            reveal_strlit(".csv");
            reveal_strlit(".json");
        }
        let n = file_name.unicode_len();
        if str_ends_with(file_name, ".csv") && n >= tag + 1 + 4 {
            Some(LocFileType::Csv)
        } else if str_ends_with(file_name, ".json") && n >= tag + 1 + 5 {
            Some(LocFileType::Json)
        } else {
            None
        }
    }
}

/// The possible kinds of invalid localization rows.
pub enum InvalidEntry {
    /// A row with no first column; holds the file name.
    EmptyRecord(String),
    /// A key missing from the reference; holds the file name and the key.
    BadKey(String, String),
}

/// The mathematical form of an [`InvalidEntry`].
pub enum InvalidEntryView {
    EmptyRecord(Seq<char>),
    BadKey(Seq<char>, Seq<char>),
}

impl View for InvalidEntry {
    type V = InvalidEntryView;

    open spec fn view(&self) -> InvalidEntryView {
        match self {
            InvalidEntry::EmptyRecord(f) => InvalidEntryView::EmptyRecord(f@),
            InvalidEntry::BadKey(f, k) => InvalidEntryView::BadKey(f@, k@),
        }
    }
}

impl InvalidEntry {
    /// The report line for this finding.
    pub open spec fn spec_message(self) -> Seq<char> {
        match self@ {
            InvalidEntryView::EmptyRecord(f) => f + "\t: Empty record."@,
            InvalidEntryView::BadKey(f, k) => f + "\t: The key `"@ + k
                + "` was not found in the reference file."@,
        }
    }

    /// Renders the report line.
    pub fn message(&self) -> (r: String)
        ensures
            r@ == self.spec_message(),
    {
        match self {
            InvalidEntry::EmptyRecord(f) => {
                let mut out = f.clone();
                out.append("\t: Empty record.");
                out
            },
            InvalidEntry::BadKey(f, k) => {
                let mut out = f.clone();
                out.append("\t: The key `");
                out.append(k.as_str());
                out.append("` was not found in the reference file.");
                proof {
                    assert(out@ =~= self.spec_message());
                }
                out
            },
        }
    }
}

/// The row rule: a key present in the reference is valid; a key opening
/// with `#` is a comment and is ignored whether or not it is present;
/// anything else is invalid.
pub open spec fn spec_validate_entry(
    file_name: Seq<char>,
    key: Seq<char>,
    refs: Seq<Seq<char>>,
) -> ItemStatus<InvalidEntryView> {
    if spec_contains_str(refs, key) {
        ItemStatus::Valid
    } else if key.len() > 0 && key[0] == '#' {
        ItemStatus::Ignored
    } else {
        ItemStatus::Invalid(InvalidEntryView::BadKey(file_name, key))
    }
}

/// Classifies one CSV row's key.
pub fn validate_entry(file_name: &str, key: &str, reference: &Vec<String>) -> (r: ItemStatus<
    InvalidEntry,
>)
    ensures
        r@ == spec_validate_entry(file_name@, key@, strs_view(reference@)),
{
    if vec_contains_str(reference, key) {
        ItemStatus::Valid
    } else {
        let n = key.unicode_len();
        if n > 0 && key.get_char(0) == '#' {
            ItemStatus::Ignored
        } else {
            ItemStatus::Invalid(InvalidEntry::BadKey(file_name.to_owned(), key.to_owned()))
        }
    }
}

/// A comment row is ignored, never invalid: a row whose key
/// opens with `#` never classifies as invalid — whether or not the key
/// stands in the reference — so it neither counts as invalid nor appears
/// in any mismatch listing.
pub proof fn lemma_comment_rows_never_invalid(
    file_name: Seq<char>,
    key: Seq<char>,
    refs: Seq<Seq<char>>,
)
    requires
        key.len() > 0,
        key[0] == '#',
    ensures
        !(spec_validate_entry(file_name, key, refs) is Invalid),
{
}

/// The classification of one row, a missing first column included.
pub open spec fn spec_row_status(
    file_name: Seq<char>,
    row: Option<Seq<char>>,
    refs: Seq<Seq<char>>,
) -> ItemStatus<InvalidEntryView> {
    match row {
        None => ItemStatus::Invalid(InvalidEntryView::EmptyRecord(file_name)),
        Some(k) => spec_validate_entry(file_name, k, refs),
    }
}

/// The outcome of classifying the rows from `i` on, starting from
/// `valid0` already counted valid: the final valid count and the findings
/// in row order, or the overflow abort — taken, as the scan takes it,
/// before each row once the counter is saturated.
pub open spec fn spec_scan_rows_from(
    file_name: Seq<char>,
    rows: Seq<Option<Seq<char>>>,
    refs: Seq<Seq<char>>,
    i: int,
    valid0: int,
) -> Result<(int, Seq<InvalidEntryView>), ()>
    decreases rows.len() - i,
{
    if i < 0 || i >= rows.len() {
        Ok((valid0, Seq::empty()))
    } else if valid0 >= u32::MAX {
        Err(())
    } else {
        match spec_row_status(file_name, rows[i], refs) {
            ItemStatus::Valid => spec_scan_rows_from(file_name, rows, refs, i + 1, valid0 + 1),
            ItemStatus::Invalid(b) => match spec_scan_rows_from(
                file_name,
                rows,
                refs,
                i + 1,
                valid0,
            ) {
                Ok((v, inv)) => Ok((v, seq![b] + inv)),
                Err(u) => Err(u),
            },
            ItemStatus::Ignored => spec_scan_rows_from(file_name, rows, refs, i + 1, valid0),
        }
    }
}

/// Classifies the rows of one CSV candidate into the scanner, exactly as
/// the row rule says for each row: valid rows are counted, invalid rows
/// are appended as findings in order, comment rows change nothing, and
/// the scan aborts exactly when the valid counter is saturated.
pub fn scan_csv_rows(
    scanner: &mut Scanner<InvalidEntry>,
    file_name: &str,
    fields: &Vec<Option<String>>,
    reference: &Vec<String>,
) -> (r: Result<(), LocScanError>)
    ensures
        final(scanner).item_name == old(scanner).item_name,
        match r {
            Ok(()) => spec_scan_rows_from(
                file_name@,
                fields_view(fields@),
                strs_view(reference@),
                0,
                old(scanner).valid_count as int,
            ) matches Ok((v, inv)) && final(scanner).valid_count == v && Seq::new(
                final(scanner).invalid_items@.len(),
                |q: int| final(scanner).invalid_items@[q]@,
            ) == Seq::new(
                old(scanner).invalid_items@.len(),
                |q: int| old(scanner).invalid_items@[q]@,
            ) + inv,
            Err(LocScanError::TooManyRows) => spec_scan_rows_from(
                file_name@,
                fields_view(fields@),
                strs_view(reference@),
                0,
                old(scanner).valid_count as int,
            ) is Err,
            Err(LocScanError::Csv(_)) => false,
        },
{
    let ghost fv = fields_view(fields@);
    let ghost rv = strs_view(reference@);
    let ghost base = Seq::new(
        old(scanner).invalid_items@.len(),
        |q: int| old(scanner).invalid_items@[q]@,
    );
    let ghost mut acc: Seq<InvalidEntryView> = Seq::empty();
    let m = fields.len();
    let mut x: usize = 0;
    proof {
        assert(base + acc =~= base);
    }
    while x < m
        invariant
            m == fields@.len(),
            fv == fields_view(fields@),
            rv == strs_view(reference@),
            x <= m,
            scanner.item_name == old(scanner).item_name,
            Seq::new(scanner.invalid_items@.len(), |q: int| scanner.invalid_items@[q]@) == base
                + acc,
            spec_scan_rows_from(file_name@, fv, rv, 0, old(scanner).valid_count as int) == (
            match spec_scan_rows_from(file_name@, fv, rv, x as int, scanner.valid_count as int) {
                Ok((v, inv)) => Ok::<(int, Seq<InvalidEntryView>), ()>((v, acc + inv)),
                Err(u) => Err(u),
            }),
        decreases m - x,
    {
        if scanner.valid_count == 0xffff_ffffu32 {
            return Err(LocScanError::TooManyRows);
        }
        proof {
            assert(fv[x as int] == match fields@[x as int] {
                Some(s) => Some(s@),
                None => None,
            });
        }
        let status: ItemStatus<InvalidEntry> = match &fields[x] {
            None => ItemStatus::Invalid(InvalidEntry::EmptyRecord(file_name.to_owned())),
            Some(key) => validate_entry(file_name, key.as_str(), reference),
        };
        proof {
            assert(status@ == spec_row_status(file_name@, fv[x as int], rv));
        }
        let ghost pre = Seq::new(scanner.invalid_items@.len(), |q: int| scanner.invalid_items@[q]@);
        scanner.register(status);
        proof {
            match status@ {
                ItemStatus::Invalid(b) => {
                    let acc0 = acc;
                    acc = acc + seq![b];
                    assert(Seq::new(
                        scanner.invalid_items@.len(),
                        |q: int| scanner.invalid_items@[q]@,
                    ) =~= pre + seq![b]);
                    assert(base + acc =~= (base + acc0) + seq![b]);
                    match spec_scan_rows_from(
                        file_name@,
                        fv,
                        rv,
                        x as int + 1,
                        scanner.valid_count as int,
                    ) {
                        Ok((v, inv)) => {
                            assert(acc0 + (seq![b] + inv) =~= acc + inv);
                        },
                        Err(_) => {},
                    }
                },
                _ => {},
            }
        }
        x = x + 1;
    }
    proof {
        assert(acc + Seq::<InvalidEntryView>::empty() =~= acc);
    }
    Ok(())
}

/// The file names, among the walked non-directory entries up to the end,
/// that match no localization pattern, in walk order.
pub open spec fn spec_bad_loc_names(es: Seq<(Seq<char>, bool)>) -> Seq<Seq<char>>
    decreases es.len(),
{
    if es.len() == 0 {
        Seq::empty()
    } else {
        spec_bad_loc_names(es.drop_last()) + ({
            let e = es.last();
            if !e.1 && spec_loc_file_type(spec_file_name(e.0)) is None {
                seq![spec_file_name(e.0)]
            } else {
                Seq::empty()
            }
        })
    }
}

/// The file names of walked JSON candidates, which are accepted as present
/// but not content-validated.
pub open spec fn spec_json_loc_names(es: Seq<(Seq<char>, bool)>) -> Seq<Seq<char>>
    decreases es.len(),
{
    if es.len() == 0 {
        Seq::empty()
    } else {
        spec_json_loc_names(es.drop_last()) + ({
            let e = es.last();
            if !e.1 && spec_loc_file_type(spec_file_name(e.0)) == Some(LocFileType::Json) {
                seq![spec_file_name(e.0)]
            } else {
                Seq::empty()
            }
        })
    }
}

/// What the localization scan found.
pub struct LocScanOutcome {
    /// Row classification counts and findings.
    pub scanner: Scanner<InvalidEntry>,
    /// Names that match no localization pattern, skipped outright.
    pub invalid_file_names: Vec<String>,
    /// JSON candidates, present but not content-validated.
    pub skipped_json: Vec<String>,
}

/// Why the localization scan could not finish.
#[derive(Debug)]
pub enum LocScanError {
    /// The record source failed on a candidate file.
    Csv(CsvReadError),
    /// More rows than the counters can carry.
    TooManyRows,
}

/// Scans the walked entries: each CSV candidate's rows are classified
/// against the reference through [`scan_csv_rows`], whose contract fixes
/// the outcome row by row for whatever rows the record source returned;
/// names matching no pattern are listed, JSON candidates are recorded but
/// never read or counted. The two name listings are exactly what the name
/// pattern says; when no CSV candidate stands among the entries the scan
/// is owed to succeed with untouched counts, and either error implies a
/// CSV candidate was walked.
pub fn scan_localization_files(entries: &Vec<FsEntry>, reference: &Vec<String>) -> (r: Result<
    LocScanOutcome,
    LocScanError,
>)
    ensures
        r matches Ok(out) ==> ({
            &&& out.scanner.item_name@ == "entries"@
            &&& strs_view(out.invalid_file_names@) == spec_bad_loc_names(entries_view(entries@))
            &&& strs_view(out.skipped_json@) == spec_json_loc_names(entries_view(entries@))
        }),
        r is Err ==> (exists|q: int|
            0 <= q < entries@.len() && !(#[trigger] entries_view(entries@)[q]).1
                && spec_loc_file_type(spec_file_name(entries_view(entries@)[q].0)) == Some(
                LocFileType::Csv,
            )),
        ({
            (forall|q: int|
                0 <= q < entries@.len() && !(#[trigger] entries_view(entries@)[q]).1
                    ==> spec_loc_file_type(spec_file_name(entries_view(entries@)[q].0)) != Some(
                    LocFileType::Csv,
                )) ==> (r matches Ok(out) && out.scanner.valid_count == 0
                && out.scanner.invalid_items@.len() == 0)
        }),
{
    let ghost ev = entries_view(entries@);
    let mut scanner: Scanner<InvalidEntry> = Scanner::new("entries");
    let mut invalid_file_names: Vec<String> = Vec::new();
    let mut skipped_json: Vec<String> = Vec::new();
    let n = entries.len();
    let mut i: usize = 0;
    proof {
        assert(ev.subrange(0, 0) =~= Seq::<(Seq<char>, bool)>::empty());
        assert(strs_view(invalid_file_names@) =~= Seq::<Seq<char>>::empty());
        assert(strs_view(skipped_json@) =~= Seq::<Seq<char>>::empty());
    }
    while i < n
        invariant
            n == entries@.len(),
            ev == entries_view(entries@),
            i <= n,
            scanner.item_name@ == "entries"@,
            strs_view(invalid_file_names@) == spec_bad_loc_names(ev.subrange(0, i as int)),
            strs_view(skipped_json@) == spec_json_loc_names(ev.subrange(0, i as int)),
            (forall|q: int|
                0 <= q < n && !(#[trigger] ev[q]).1 ==> spec_loc_file_type(
                    spec_file_name(ev[q].0),
                ) != Some(LocFileType::Csv)) ==> scanner.valid_count == 0
                && scanner.invalid_items@.len() == 0,
        decreases n - i,
    {
        let e = &entries[i];
        proof {
            assert(ev[i as int] == (entries@[i as int].path@, entries@[i as int].is_dir));
        }
        if !e.is_dir {
            let file_name = paths::file_name(e.path.as_str());
            match LocFileType::from_file_name(file_name.as_str()) {
                None => {
                    invalid_file_names.push(file_name);
                    proof {
                        assert(strs_view(invalid_file_names@) =~= spec_bad_loc_names(
                            ev.subrange(0, i as int),
                        ) + seq![spec_file_name(ev[i as int].0)]);
                    }
                },
                Some(LocFileType::Json) => {
                    skipped_json.push(file_name);
                    proof {
                        assert(strs_view(skipped_json@) =~= spec_json_loc_names(
                            ev.subrange(0, i as int),
                        ) + seq![spec_file_name(ev[i as int].0)]);
                    }
                },
                Some(LocFileType::Csv) => {
                    proof {
                        assert(!ev[i as int].1 && spec_loc_file_type(
                            spec_file_name(ev[i as int].0),
                        ) == Some(LocFileType::Csv));
                    }
                    let fields = match read_csv_first_fields(e.path.as_str()) {
                        Ok(f) => f,
                        Err(err) => {
                            return Err(LocScanError::Csv(err));
                        },
                    };
                    match scan_csv_rows(&mut scanner, file_name.as_str(), &fields, reference) {
                        Ok(()) => {},
                        Err(err) => {
                            return Err(err);
                        },
                    }
                },
            }
        }
        proof {
            let taken = ev.subrange(0, i as int + 1);
            assert(taken.drop_last() =~= ev.subrange(0, i as int));
            assert(taken.last() == ev[i as int]);
        }
        i = i + 1;
    }
    proof {
        assert(ev.subrange(0, n as int) =~= ev);
    }
    Ok(LocScanOutcome { scanner, invalid_file_names, skipped_json })
}

} // verus!
