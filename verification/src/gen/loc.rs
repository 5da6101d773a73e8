//! The localization reference builder: the first column of every data row
//! of the aggregate CSV becomes one translation key, one per line.

use vstd::prelude::*;

use crate::records::{CsvReadError, read_csv_first_fields};

verus! {

/// The views of the rows' first fields.
pub open spec fn fields_view(fs: Seq<Option<String>>) -> Seq<Option<Seq<char>>> {
    Seq::new(
        fs.len(),
        |i: int|
            match fs[i] {
                Some(s) => Some(s@),
                None => None,
            },
    )
}

/// The reference text for the fields from `i` on, given whether a key was
/// already written: rows without a first column are skipped, keys are
/// separated by single newlines, and no newline closes the text.
pub open spec fn spec_loc_text_from(fs: Seq<Option<Seq<char>>>, i: int, started: bool) -> Seq<
    char,
>
    decreases fs.len() - i,
{
    if i < 0 || i >= fs.len() {
        Seq::empty()
    } else {
        match fs[i] {
            None => spec_loc_text_from(fs, i + 1, started),
            Some(k) => (if started {
                seq!['\n']
            } else {
                Seq::empty()
            }) + k + spec_loc_text_from(fs, i + 1, true),
        }
    }
}

/// Joins the keys found in the rows into the reference text.
pub fn loc_keys_text(fields: &Vec<Option<String>>) -> (r: String)
    ensures
        r@ == spec_loc_text_from(fields_view(fields@), 0, false),
{
    let ghost fv = fields_view(fields@);
    let n = fields.len();
    let mut out = String::new();
    let mut started = false;
    let mut i: usize = 0;
    while i < n
        invariant
            n == fields@.len(),
            fv == fields_view(fields@),
            i <= n,
            spec_loc_text_from(fv, 0, false) == out@ + spec_loc_text_from(
                fv,
                i as int,
                started,
            ),
        decreases n - i,
    {
        let ghost pre = out@;
        proof {
            reveal_strlit("\n");
            assert(fv[i as int] == match fields@[i as int] {
                Some(s) => Some(s@),
                None => None,
            });
        }
        match &fields[i] {
            None => {},
            Some(k) => {
                let ghost rest = spec_loc_text_from(fv, i as int + 1, true);
                if started {
                    out.append("\n");
                }
                out.append(k.as_str());
                proof {
                    if started {
                        assert(pre + (seq!['\n'] + k@ + rest) =~= ((pre + seq!['\n']) + k@)
                            + rest);
                    } else {
                        assert(pre + (Seq::<char>::empty() + k@ + rest) =~= (pre + k@) + rest);
                    }
                }
                started = true;
            },
        }
        i = i + 1;
    }
    proof {
        assert(out@ + Seq::<char>::empty() =~= out@);
    }
    out
}

/// Reads the aggregate CSV and builds the reference text from its rows'
/// first columns. Which rows come back depends on the file on disk;
/// whatever they are, the returned text is exactly what [`loc_keys_text`]
/// — with its exact contract — makes of them.
pub fn generate_loc_ref(loc_path: &str) -> (r: Result<String, CsvReadError>) {
    match read_csv_first_fields(loc_path) {
        Ok(fields) => Ok(loc_keys_text(&fields)),
        Err(e) => Err(e),
    }
}

} // verus!
