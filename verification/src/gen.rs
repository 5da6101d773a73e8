//! Generation of the reference snapshots: per-domain builders that turn a
//! walked source tree into a serialized snapshot plus an operator report.

pub mod images;
pub mod loc;
pub mod music;
pub mod scan_data;
pub mod sounds;

use vstd::prelude::*;

use crate::image_data::ImageData;
use crate::paths;
use crate::paths::{spec_file_name, spec_key_name};
use crate::slop::{Slop, SlopValue, SlopValueView, lemma_index_of, spec_index_of};
use crate::static_file_data::IMAGE_REF_VERSION;
use crate::text::{spec_digits, u64_string};

use self::scan_data::{ScanData, spec_total, spec_key_index};

verus! {

/// An asset that could not enter the image reference.
pub enum InvalidEntry {
    /// The file could not be read as an image; holds its path.
    InvalidImage(String),
}

/// The mathematical form of an [`InvalidEntry`].
pub enum InvalidEntryView {
    InvalidImage(Seq<char>),
}

impl View for InvalidEntry {
    type V = InvalidEntryView;

    open spec fn view(&self) -> InvalidEntryView {
        match self {
            InvalidEntry::InvalidImage(p) => InvalidEntryView::InvalidImage(p@),
        }
    }
}

impl InvalidEntry {
    /// The report line for this entry.
    pub open spec fn spec_message(self) -> Seq<char> {
        match self@ {
            InvalidEntryView::InvalidImage(p) => "Couldn't read as image: "@ + p,
        }
    }

    /// Renders the report line.
    pub fn message(&self) -> (r: String)
        ensures
            r@ == self.spec_message(),
    {
        let mut out = String::new();
        out.append("Couldn't read as image: ");
        match self {
            InvalidEntry::InvalidImage(p) => {
                out.append(p.as_str());
            },
        }
        out
    }
}

/// The invalid side-table, as mathematics: each record's path key and the
/// path its reason carries (the same path).
pub open spec fn image_invalids_view(d: Seq<(String, InvalidEntry)>) -> Seq<
    (Seq<char>, Seq<char>),
> {
    Seq::new(
        d.len(),
        |i: int|
            (
                d[i].0@,
                match d[i].1 {
                    InvalidEntry::InvalidImage(p) => p@,
                },
            ),
    )
}

pub proof fn lemma_image_invalids_index_pub(s: Seq<(String, InvalidEntry)>, k: Seq<char>)
    ensures
        crate::text::spec_pair_index(image_invalids_view(s), k) == spec_key_index(s, k),
    decreases s.len(),
{
    if s.len() > 0 {
        assert(image_invalids_view(s)[0].0 == s[0].0@);
        if s[0].0@ != k {
            lemma_image_invalids_index_pub(s.drop_first(), k);
            assert(image_invalids_view(s).drop_first() =~~= image_invalids_view(
                s.drop_first(),
            ));
        }
    }
}

/// Tries to read `path` as an image and records the outcome: a readable
/// image joins the valid group under the parent directory's key, named
/// from the file; anything else is filed as invalid under its own path.
/// Which of the two happens depends on the file on disk; each outcome's
/// effect on the collected data is exact.
pub fn register_item(
    data: &mut ScanData<ImageData, InvalidEntry>,
    parent_dir: &str,
    path: &str,
)
    requires
        old(data).wf(),
        spec_total(old(data).valid_entries@) < usize::MAX,
    ensures
        final(data).wf(),
        final(data).item_name == old(data).item_name,
        spec_total(final(data).valid_entries@) + final(data).invalid_entries@.len() == spec_total(
            old(data).valid_entries@,
        ) + old(data).invalid_entries@.len() + 1 || (spec_key_index(
            old(data).invalid_entries@,
            path@,
        ) >= 0 && spec_total(final(data).valid_entries@) + final(data).invalid_entries@.len()
            == spec_total(old(data).valid_entries@) + old(data).invalid_entries@.len()),
        forall|q: int|
            0 <= q < final(data).valid_entries@.len() ==> (q < old(data).valid_entries@.len() && (
            #[trigger] final(data).valid_entries@[q]).0 == old(data).valid_entries@[q].0) || final(data).valid_entries@[q].0@ == spec_key_name(parent_dir@),
        ({
            let key = spec_key_name(parent_dir@);
            let name = spec_file_name(path@);
            ||| (final(data).invalid_entries@ == old(data).invalid_entries@ && spec_total(
                final(data).valid_entries@,
            ) == spec_total(old(data).valid_entries@) + 1 && ({
                let i = spec_key_index(old(data).valid_entries@, key);
                if i < 0 {
                    final(data).valid_entries@.len() == old(data).valid_entries@.len() + 1 && (
                    forall|j: int|
                        0 <= j < old(data).valid_entries@.len() ==> final(data).valid_entries@[j]
                            == old(data).valid_entries@[j]) && final(data).valid_entries@.last().0@ == key && final(data).valid_entries@.last().1@.len()
                        == 1 && final(data).valid_entries@.last().1@[0].file_name@ == name
                } else {
                    final(data).valid_entries@.len() == old(data).valid_entries@.len() && (forall|
                        j: int,
                    |
                        0 <= j < old(data).valid_entries@.len() && j != i ==> final(data).valid_entries@[j] == old(data).valid_entries@[j]) && final(data).valid_entries@[i].0 == old(data).valid_entries@[i].0 && final(data).valid_entries@[i].1@.len() == old(data).valid_entries@[i].1@.len() + 1
                        && final(data).valid_entries@[i].1@.drop_last() == old(data).valid_entries@[i].1@ && final(data).valid_entries@[i].1@.last().file_name@
                        == name
                }
            }))
            ||| (final(data).valid_entries@ == old(data).valid_entries@ && image_invalids_view(
                final(data).invalid_entries@,
            ) == crate::gen::sounds::spec_invalid_file(
                image_invalids_view(old(data).invalid_entries@),
                path@,
            ))
        }),
{
    let ghost iv0 = image_invalids_view(old(data).invalid_entries@);
    let key = paths::path_buf_to_key_name(parent_dir);
    match ImageData::open(path) {
        Ok(i) => {
            data.push_valid(key.as_str(), i);
            proof {
                let idx = spec_key_index(old(data).valid_entries@, key@);
                if idx >= 0 {
                    crate::gen::scan_data::lemma_key_index(old(data).valid_entries@, key@);
                    assert(data.valid_entries@[idx].1@.drop_last() =~= old(data).valid_entries@[idx].1@);
                }
            }
        },
        Err(_) => {
            proof {
                lemma_image_invalids_index_pub(data.invalid_entries@, path@);
                crate::gen::scan_data::lemma_key_index(data.invalid_entries@, path@);
            }
            data.push_invalid(path, InvalidEntry::InvalidImage(path.to_owned()));
            proof {
                let idx = spec_key_index(old(data).invalid_entries@, path@);
                if idx < 0 {
                    assert(image_invalids_view(data.invalid_entries@) =~~= iv0.push(
                        (path@, path@),
                    ));
                } else {
                    assert(image_invalids_view(data.invalid_entries@) =~~= iv0.update(
                        idx,
                        (path@, path@),
                    ));
                }
            }
        },
    }
}

/// The snapshot a group table denotes: `!version`, `!count`, then one list
/// per directory key, each image rendered as `name:WxH`, in held order.
pub open spec fn spec_image_slop(
    groups: Seq<(String, Vec<ImageData>)>,
    count: int,
) -> Seq<(Seq<char>, SlopValueView)> {
    seq![
        ("!version"@, SlopValueView::Str(spec_digits(IMAGE_REF_VERSION as nat))),
        ("!count"@, SlopValueView::Str(spec_digits(count as nat))),
    ] + Seq::new(
        groups.len(),
        |i: int|
            (
                groups[i].0@,
                SlopValueView::List(
                    Seq::new(groups[i].1@.len(), |j: int| groups[i].1@[j].spec_encoded()),
                ),
            ),
    )
}

/// Serializes the collected image groups into a snapshot carrying the
/// image format version and the joined count of valid and invalid items.
pub fn generate_slop<B>(data: &ScanData<ImageData, B>) -> (r: Slop)
    requires
        data.wf(),
        spec_total(data.valid_entries@) + data.invalid_entries@.len() <= usize::MAX,
        forall|i: int|
            0 <= i < data.valid_entries@.len() ==> (#[trigger] data.valid_entries@[i]).0@.len() > 0
                && data.valid_entries@[i].0@[0] == '/',
    ensures
        r.wf(),
        r@ == spec_image_slop(
            data.valid_entries@,
            spec_total(data.valid_entries@) + data.invalid_entries@.len(),
        ),
{
    proof {
        reveal_strlit("!version");
        reveal_strlit("!count");
    }
    let joined = data.joined_count();
    let ghost base = seq![
        ("!version"@, SlopValueView::Str(spec_digits(IMAGE_REF_VERSION as nat))),
        ("!count"@, SlopValueView::Str(spec_digits(joined as nat))),
    ];
    let mut slop = Slop::new();
    let v = u64_string(IMAGE_REF_VERSION as u64);
    slop.insert_str(crate::static_file_data::version_key(), v.as_str());
    proof {
        assert(slop@ =~= seq![
            ("!version"@, SlopValueView::Str(spec_digits(IMAGE_REF_VERSION as nat))),
        ]);
    }
    let c = u64_string(joined as u64);
    slop.insert_str(crate::static_file_data::count_key(), c.as_str());
    proof {
        assert("!version"@.len() != "!count"@.len());
        lemma_index_of(seq![
            ("!version"@, SlopValueView::Str(spec_digits(IMAGE_REF_VERSION as nat))),
        ], "!count"@);
        assert(slop@ =~= base);
    }
    let n = data.valid_entries.len();
    let mut i: usize = 0;
    proof {
        assert(slop@ =~= base + Seq::new(
            0,
            |q: int|
                (
                    data.valid_entries@[q].0@,
                    SlopValueView::List(
                        Seq::new(
                            data.valid_entries@[q].1@.len(),
                            |j: int| data.valid_entries@[q].1@[j].spec_encoded(),
                        ),
                    ),
                ),
        ));
    }
    while i < n
        invariant
            data.wf(),
            n == data.valid_entries@.len(),
            i <= n,
            forall|q: int|
                0 <= q < n ==> (#[trigger] data.valid_entries@[q]).0@.len() > 0
                    && data.valid_entries@[q].0@[0] == '/',
            slop.wf(),
            slop@.len() == i + 2,
            slop@[0].0 == "!version"@,
            slop@[1].0 == "!count"@,
            forall|q: int|
                2 <= q < slop@.len() ==> (#[trigger] slop@[q]).0 == data.valid_entries@[q
                    - 2].0@,
            slop@ == base + Seq::new(
                i as nat,
                |q: int|
                    (
                        data.valid_entries@[q].0@,
                        SlopValueView::List(
                            Seq::new(
                                data.valid_entries@[q].1@.len(),
                                |j: int| data.valid_entries@[q].1@[j].spec_encoded(),
                            ),
                        ),
                    ),
            ),
        decreases n - i,
    {
        proof {
            reveal_strlit("!version");
            reveal_strlit("!count");
        }
        let group = &data.valid_entries[i];
        let m = group.1.len();
        let mut images: Vec<String> = Vec::new();
        let mut j: usize = 0;
        while j < m
            invariant
                n == data.valid_entries@.len(),
                i < n,
                m == data.valid_entries@[i as int].1@.len(),
                j <= m,
                group.1@ == data.valid_entries@[i as int].1@,
                images@.len() == j,
                forall|q: int|
                    0 <= q < j ==> (#[trigger] images@[q])@ == data.valid_entries@[i as int].1@[q].spec_encoded(),
            decreases m - j,
        {
            images.push(group.1[j].encode());
            j = j + 1;
        }
        let ghost before = slop@;
        proof {
            // the new key differs from the metadata keys and from every key
            // already inserted
            let key = data.valid_entries@[i as int].0@;
            assert(key[0] == '/');
            assert("!version"@[0] == '!');
            assert("!count"@[0] == '!');
            assert forall|q: int| 0 <= q < before.len() implies (#[trigger] before[q]).0
                != key by {
                if q >= 2 {
                    assert(before[q].0 == data.valid_entries@[q - 2].0@);
                    assert(data.valid_entries@[q - 2].0@ != data.valid_entries@[i as int].0@);
                } else if q == 0 {
                    assert(before[q].0 == "!version"@);
                } else {
                    assert(before[q].0 == "!count"@);
                }
            }
            lemma_index_of(before, key);
            if spec_index_of(before, key) >= 0 {
                assert(before[spec_index_of(before, key)].0 == key);
            }
        }
        slop.insert(group.0.as_str(), SlopValue::List(images));
        proof {
            assert(slop@ =~~= base + Seq::new(
                (i + 1) as nat,
                |q: int|
                    (
                        data.valid_entries@[q].0@,
                        SlopValueView::List(
                            Seq::new(
                                data.valid_entries@[q].1@.len(),
                                |j: int| data.valid_entries@[q].1@[j].spec_encoded(),
                            ),
                        ),
                    ),
            ));
        }
        i = i + 1;
    }
    proof {
        assert(slop@ =~~= spec_image_slop(
            data.valid_entries@,
            spec_total(data.valid_entries@) + data.invalid_entries@.len(),
        ));
    }
    slop
}

} // verus!
