//! The image reference builder: walks the extracted `Images/` tree, probes
//! every file as an image, and serializes the grouped findings.

use vstd::prelude::*;

use crate::gen::{
    InvalidEntry, image_invalids_view, register_item, generate_slop, spec_image_slop,
};
use crate::gen::scan_data::{ScanData, spec_total, spec_key_index, lemma_key_index};
use crate::image_data::ImageData;
use crate::paths;
use crate::paths::{
    FsEntry, entries_view, spec_file_name, spec_parent, spec_strip_prefix, spec_is_candidate,
    spec_candidate_count, lemma_candidate_count_bound,
};
use crate::slop::Slop;
use crate::text::str_eq;

verus! {

/// A fault that aborts reference generation outright.
#[derive(Debug)]
pub enum ImageGenError {
    /// A walked file does not lie under the scanned root.
    NotUnderRoot(String),
}

/// The first considered entry that does not lie under the root, if any.
pub open spec fn spec_first_stray(es: Seq<(Seq<char>, bool)>, dir: Seq<char>, i: int) -> Option<
    Seq<char>,
>
    decreases es.len() - i,
{
    if i < 0 || i >= es.len() {
        None
    } else if !spec_is_candidate(es[i]) {
        spec_first_stray(es, dir, i + 1)
    } else {
        match spec_strip_prefix(spec_parent(es[i].0), dir) {
            None => Some(es[i].0),
            Some(_) => spec_first_stray(es, dir, i + 1),
        }
    }
}

/// The considered entries carry pairwise distinct paths, as a real
/// directory walk yields them.
pub open spec fn spec_distinct_candidates(es: Seq<(Seq<char>, bool)>) -> bool {
    forall|q1: int, q2: int|
        0 <= q1 < q2 < es.len() && spec_is_candidate(es[q1]) && spec_is_candidate(es[q2]) ==> (
        #[trigger] es[q1]).0 != (#[trigger] es[q2]).0
}

/// Builds the image reference from the files walked under `image_dir`:
/// every considered file — directories and `desktop.ini` aside — is probed
/// as an image and grouped under its parent directory's key; unreadable
/// files are collected for the report, and never enter the snapshot. The
/// error carries the first considered file outside the root and comes
/// exactly when there is one; on success the snapshot serializes the
/// collected data, every considered file was counted once (valid or
/// invalid — exactly once whenever the walked paths are distinct), and
/// which side each file landed on is fixed per file by [`register_item`].
pub fn generate_image_ref(entries: &Vec<FsEntry>, image_dir: &str) -> (r: Result<
    (ScanData<ImageData, InvalidEntry>, Slop),
    ImageGenError,
>)
    ensures
        match r {
            Ok((data, slop)) => data.wf() && slop.wf() && slop@ == spec_image_slop(
                data.valid_entries@,
                spec_total(data.valid_entries@) + data.invalid_entries@.len(),
            ) && spec_first_stray(entries_view(entries@), image_dir@, 0) is None && spec_total(
                data.valid_entries@,
            ) + data.invalid_entries@.len() <= spec_candidate_count(entries_view(entries@), 0)
                && (spec_distinct_candidates(entries_view(entries@)) ==> spec_total(
                data.valid_entries@,
            ) + data.invalid_entries@.len() == spec_candidate_count(entries_view(entries@), 0)),
            Err(ImageGenError::NotUnderRoot(p)) => spec_first_stray(
                entries_view(entries@),
                image_dir@,
                0,
            ) == Some(p@),
        },
{
    let ghost ev = entries_view(entries@);
    let mut data: ScanData<ImageData, InvalidEntry> = ScanData::new("images");
    let n = entries.len();
    let mut i: usize = 0;
    while i < n
        invariant
            n == entries@.len(),
            ev == entries_view(entries@),
            i <= n,
            data.wf(),
            spec_first_stray(ev, image_dir@, 0) == spec_first_stray(ev, image_dir@, i as int),
            spec_total(data.valid_entries@) + data.invalid_entries@.len()
                + spec_candidate_count(ev, i as int) <= spec_candidate_count(ev, 0),
            spec_distinct_candidates(ev) ==> spec_total(data.valid_entries@)
                + data.invalid_entries@.len() + spec_candidate_count(ev, i as int)
                == spec_candidate_count(ev, 0),
            spec_distinct_candidates(ev) ==> (forall|t: int|
                0 <= t < data.invalid_entries@.len() ==> exists|q: int|
                    0 <= q < i && spec_is_candidate(#[trigger] ev[q]) && ev[q].0 == (
                    #[trigger] data.invalid_entries@[t]).0@),
            forall|q: int|
                0 <= q < data.valid_entries@.len() ==> (
                #[trigger] data.valid_entries@[q]).0@.len() > 0 && data.valid_entries@[q].0@[0]
                    == '/',
        decreases n - i,
    {
        let e = &entries[i];
        let ghost inv0 = data.invalid_entries@;
        proof {
            assert(ev[i as int] == (entries@[i as int].path@, entries@[i as int].is_dir));
            lemma_candidate_count_bound(ev, i as int);
            lemma_candidate_count_bound(ev, 0);
        }
        if !e.is_dir {
            let name = paths::file_name(e.path.as_str());
            if !str_eq(name.as_str(), "desktop.ini") {
                match paths::sanitize_path(e.path.as_str(), image_dir) {
                    None => {
                        proof {
                            assert(spec_first_stray(ev, image_dir@, i as int) == Some(e.path@));
                        }
                        return Err(ImageGenError::NotUnderRoot(e.path.clone()));
                    },
                    Some(parent) => {
                        let ghost d0 = data;
                        proof {
                            lemma_candidate_count_bound(ev, i as int + 1);
                            assert(spec_is_candidate(ev[i as int]));
                            assert(spec_candidate_count(ev, i as int) >= 1);
                        }
                        register_item(&mut data, parent.as_str(), e.path.as_str());
                        proof {
                            paths::lemma_key_name_starts_slash(parent@);
                            if spec_distinct_candidates(ev) {
                                crate::gen::lemma_image_invalids_index_pub(
                                    d0.invalid_entries@,
                                    e.path@,
                                );
                                lemma_key_index(d0.invalid_entries@, e.path@);
                                let s0 = spec_total(d0.valid_entries@)
                                    + d0.invalid_entries@.len();
                                let s1 = spec_total(data.valid_entries@)
                                    + data.invalid_entries@.len();
                                if s1 != s0 + 1 {
                                    lemma_key_index(d0.invalid_entries@, e.path@);
                                    let idx = spec_key_index(d0.invalid_entries@, e.path@);
                                    assert(d0.invalid_entries@[idx].0@ == e.path@);
                                    let q = choose|q: int|
                                        0 <= q < i && spec_is_candidate(#[trigger] ev[q]) && ev[q].0 == d0.invalid_entries@[idx].0@;
                                    assert(spec_is_candidate(ev[i as int]));
                                    assert(ev[q].0 != ev[i as int].0);
                                    assert(false);
                                }
                                assert forall|t: int|
                                    0 <= t < data.invalid_entries@.len() implies exists|q: int|
                                        0 <= q < i + 1 && spec_is_candidate(#[trigger] ev[q])
                                            && ev[q].0 == (
                                        #[trigger] data.invalid_entries@[t]).0@ by {
                                    if data.invalid_entries@ == d0.invalid_entries@ {
                                        let q = choose|q: int|
                                            0 <= q < i && spec_is_candidate(#[trigger] ev[q])
                                                && ev[q].0 == d0.invalid_entries@[t].0@;
                                        assert(0 <= q < i + 1 && spec_is_candidate(ev[q]) && ev[q].0 == data.invalid_entries@[t].0@);
                                    } else {
                                        assert(image_invalids_view(data.invalid_entries@)[t]
                                            == crate::gen::sounds::spec_invalid_file(
                                            image_invalids_view(d0.invalid_entries@),
                                            e.path@,
                                        )[t]);
                                        assert(image_invalids_view(data.invalid_entries@)[t].0
                                            == data.invalid_entries@[t].0@);
                                        if data.invalid_entries@[t].0@ == e.path@ {
                                            assert(0 <= i < i + 1 && spec_is_candidate(
                                                ev[i as int],
                                            ) && ev[i as int].0
                                                == data.invalid_entries@[t].0@);
                                        } else {
                                            assert(t < d0.invalid_entries@.len());
                                            assert(image_invalids_view(d0.invalid_entries@)[t].0
                                                == d0.invalid_entries@[t].0@);
                                            assert(data.invalid_entries@[t].0@
                                                == d0.invalid_entries@[t].0@);
                                            let q = choose|q: int|
                                                0 <= q < i && spec_is_candidate(
                                                    #[trigger] ev[q],
                                                ) && ev[q].0 == d0.invalid_entries@[t].0@;
                                            assert(0 <= q < i + 1 && spec_is_candidate(ev[q])
                                                && ev[q].0 == data.invalid_entries@[t].0@);
                                        }
                                    }
                                }
                            }
                        }
                    },
                }
            }
        }
        proof {
            if spec_distinct_candidates(ev) && data.invalid_entries@ == inv0 {
                assert forall|t: int| 0 <= t < data.invalid_entries@.len() implies exists|q: int|
                    0 <= q < i + 1 && spec_is_candidate(#[trigger] ev[q]) && ev[q].0 == (
                    #[trigger] data.invalid_entries@[t]).0@ by {
                    let q = choose|q: int|
                        0 <= q < i && spec_is_candidate(#[trigger] ev[q]) && ev[q].0
                            == data.invalid_entries@[t].0@;
                    assert(0 <= q < i + 1 && spec_is_candidate(ev[q]) && ev[q].0
                        == data.invalid_entries@[t].0@);
                }
            }
        }
        i = i + 1;
    }
    proof {
        lemma_candidate_count_bound(ev, 0);
        assert(spec_candidate_count(ev, n as int) == 0);
        assert(spec_first_stray(ev, image_dir@, n as int) is None);
    }
    let slop = generate_slop(&data);
    Ok((data, slop))
}

} // verus!
