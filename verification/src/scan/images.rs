//! The image scan: each `.png` candidate is checked against its
//! directory's group of the image snapshot, by exact name and probed
//! pixel size.

use vstd::prelude::*;

use crate::image_data::{ImageData, InvalidImage, InvalidImageView, spec_decode_image};
use crate::paths;
use crate::paths::{
    FsEntry, entries_view, spec_extension, spec_file_name, spec_key_name, spec_parent,
    spec_push, spec_strip_prefix, spec_is_candidate, spec_candidate_count,
    lemma_candidate_count_bound,
};
use crate::scanner::{ItemStatus, Scanner};
use crate::slop::{Slop, SlopValue, SlopValueView};
use crate::slopx;
use crate::slopx::spec_parse_string;
use crate::static_file_data::{IMAGE_REF_VERSION, SlopValidationError, spec_validate_slop};
use crate::text::{
    spec_pair_index, lemma_pair_index, rfind_char, lemma_rfind, str_eq,
};

verus! {

/// The data taken from the image snapshot: per directory key, the expected
/// images.
pub type DataMap = Vec<(String, Vec<ImageData>)>;

/// The decoded form of one group.
pub open spec fn images_view(g: Seq<ImageData>) -> Seq<(Seq<char>, int, int)> {
    Seq::new(g.len(), |j: int| (g[j].file_name@, g[j].size.width as int, g[j].size.height as int))
}

/// The decoded form of the loaded data.
pub open spec fn image_data_view(d: Seq<(String, Vec<ImageData>)>) -> Seq<
    (Seq<char>, Seq<(Seq<char>, int, int)>),
> {
    Seq::new(d.len(), |i: int| (d[i].0@, images_view(d[i].1@)))
}

/// Why the image snapshot cannot be used.
#[derive(Debug)]
pub enum ImageRefError {
    /// A non-reserved key holds a scalar instead of a list; holds the key.
    NotAList(String),
    /// A list element does not read as `name:WxH`; holds the element.
    BadEntry(String),
}

/// The mathematical form of an [`ImageRefError`].
pub enum ImageRefErrorView {
    NotAList(Seq<char>),
    BadEntry(Seq<char>),
}

impl View for ImageRefError {
    type V = ImageRefErrorView;

    open spec fn view(&self) -> ImageRefErrorView {
        match self {
            ImageRefError::NotAList(k) => ImageRefErrorView::NotAList(k@),
            ImageRefError::BadEntry(e) => ImageRefErrorView::BadEntry(e@),
        }
    }
}

/// The decodings of one group's elements; the first malformed element is
/// the error.
pub open spec fn spec_group_decode(es: Seq<Seq<char>>) -> Result<
    Seq<(Seq<char>, int, int)>,
    Seq<char>,
>
    decreases es.len(),
{
    if es.len() == 0 {
        Ok(Seq::empty())
    } else {
        match spec_decode_image(es[0]) {
            None => Err(es[0]),
            Some(d) => match spec_group_decode(es.drop_first()) {
                Ok(rest) => Ok(seq![d] + rest),
                Err(e) => Err(e),
            },
        }
    }
}

/// The groups the snapshot holds, each element decoded; reserved `!` keys
/// are passed over.
pub open spec fn spec_image_data_of(pairs: Seq<(Seq<char>, SlopValueView)>) -> Result<
    Seq<(Seq<char>, Seq<(Seq<char>, int, int)>)>,
    ImageRefErrorView,
>
    decreases pairs.len(),
{
    if pairs.len() == 0 {
        Ok(Seq::empty())
    } else {
        let k = pairs[0].0;
        if k.len() > 0 && k[0] == '!' {
            spec_image_data_of(pairs.drop_first())
        } else {
            match pairs[0].1 {
                SlopValueView::Str(_) => Err(ImageRefErrorView::NotAList(k)),
                SlopValueView::List(es) => match spec_group_decode(es) {
                    Err(b) => Err(ImageRefErrorView::BadEntry(b)),
                    Ok(g) => match spec_image_data_of(pairs.drop_first()) {
                        Ok(rest) => Ok(seq![(k, g)] + rest),
                        Err(e) => Err(e),
                    },
                },
            }
        }
    }
}

/// Converts the snapshot into directory-keyed image groups, failing — not
/// panicking — on a scalar group or a malformed element.
pub fn slop_into_image_data(slop: Slop) -> (r: Result<DataMap, ImageRefError>)
    ensures
        match r {
            Ok(d) => spec_image_data_of(slop@) == Ok::<
                Seq<(Seq<char>, Seq<(Seq<char>, int, int)>)>,
                ImageRefErrorView,
            >(image_data_view(d@)),
            Err(e) => spec_image_data_of(slop@) == Err::<
                Seq<(Seq<char>, Seq<(Seq<char>, int, int)>)>,
                ImageRefErrorView,
            >(e@),
        },
{
    let ghost pv = slop@;
    let items = slop.entries();
    let n = items.len();
    let mut out: DataMap = Vec::new();
    let mut i: usize = 0;
    proof {
        assert(pv.skip(0) =~= pv);
        assert(image_data_view(out@) =~= Seq::<
            (Seq<char>, Seq<(Seq<char>, int, int)>),
        >::empty());
        match spec_image_data_of(pv) {
            Ok(rest) => {
                assert(Seq::<(Seq<char>, Seq<(Seq<char>, int, int)>)>::empty() + rest =~= rest);
            },
            Err(_) => {},
        }
    }
    while i < n
        invariant
            n == items@.len(),
            pv == slop@,
            pv == crate::slop::pairs_view(items@),
            i <= n,
            spec_image_data_of(pv) == (match spec_image_data_of(pv.skip(i as int)) {
                Ok(rest) => Ok::<
                    Seq<(Seq<char>, Seq<(Seq<char>, int, int)>)>,
                    ImageRefErrorView,
                >(image_data_view(out@) + rest),
                Err(e) => Err(e),
            }),
        decreases n - i,
    {
        let ghost dv0 = image_data_view(out@);
        let ghost suf = pv.skip(i as int);
        proof {
            assert(suf[0] == pv[i as int]);
            assert(suf.drop_first() =~= pv.skip(i as int + 1));
            assert(pv[i as int] == (items@[i as int].0@, items@[i as int].1@));
        }
        let key = &items[i].0;
        let kn = key.unicode_len();
        if kn > 0 && key.as_str().get_char(0) == '!' {
            i = i + 1;
            continue;
        }
        match &items[i].1 {
            SlopValue::Str(_) => {
                return Err(ImageRefError::NotAList(key.clone()));
            },
            SlopValue::List(l) => {
                let ghost esv = Seq::new(l@.len(), |q: int| l@[q]@);
                let m = l.len();
                let mut group: Vec<ImageData> = Vec::new();
                let mut j: usize = 0;
                proof {
                    assert(esv.skip(0) =~= esv);
                    assert(images_view(group@) =~= Seq::<(Seq<char>, int, int)>::empty());
                    match spec_group_decode(esv) {
                        Ok(rest) => {
                            assert(Seq::<(Seq<char>, int, int)>::empty() + rest =~= rest);
                        },
                        Err(_) => {},
                    }
                }
                while j < m
                    invariant
                        m == l@.len(),
                        pv == slop@,
                        esv == Seq::new(l@.len(), |q: int| l@[q]@),
                        spec_group_decode(esv) matches Err(b) ==> spec_image_data_of(pv)
                            == Err::<
                            Seq<(Seq<char>, Seq<(Seq<char>, int, int)>)>,
                            ImageRefErrorView,
                        >(ImageRefErrorView::BadEntry(b)),
                        j <= m,
                        spec_group_decode(esv) == (match spec_group_decode(
                            esv.skip(j as int),
                        ) {
                            Ok(rest) => Ok::<Seq<(Seq<char>, int, int)>, Seq<char>>(
                                images_view(group@) + rest,
                            ),
                            Err(e) => Err(e),
                        }),
                    decreases m - j,
                {
                    let ghost g0 = images_view(group@);
                    let ghost gsuf = esv.skip(j as int);
                    proof {
                        assert(gsuf[0] == esv[j as int]);
                        assert(gsuf.drop_first() =~= esv.skip(j as int + 1));
                        assert(esv[j as int] == l@[j as int]@);
                    }
                    match ImageData::from_str(l[j].as_str()) {
                        Err(_) => {
                            return Err(ImageRefError::BadEntry(l[j].clone()));
                        },
                        Ok(d) => {
                            let ghost dd = (
                                d.file_name@,
                                d.size.width as int,
                                d.size.height as int,
                            );
                            group.push(d);
                            proof {
                                assert(images_view(group@) =~= g0.push(dd));
                                match spec_group_decode(esv.skip(j as int + 1)) {
                                    Ok(rest) => {
                                        assert(g0 + (seq![dd] + rest) =~= images_view(group@)
                                            + rest);
                                    },
                                    Err(_) => {},
                                }
                            }
                        },
                    }
                    j = j + 1;
                }
                proof {
                    assert(esv.skip(m as int) =~= Seq::<Seq<char>>::empty());
                    assert(images_view(group@) + Seq::<(Seq<char>, int, int)>::empty()
                        =~= images_view(group@));
                }
                out.push((key.clone(), group));
                proof {
                    let ghost p0 = pv[i as int];
                    assert(image_data_view(out@) =~= dv0.push(
                        (p0.0, images_view(out@.last().1@)),
                    ));
                    match spec_image_data_of(pv.skip(i as int + 1)) {
                        Ok(rest) => {
                            assert(dv0 + (seq![(p0.0, images_view(out@.last().1@))] + rest)
                                =~= image_data_view(out@) + rest);
                        },
                        Err(_) => {},
                    }
                }
            },
        }
        i = i + 1;
    }
    proof {
        assert(pv.skip(n as int) =~= Seq::<(Seq<char>, SlopValueView)>::empty());
        assert(image_data_view(out@) + Seq::<(Seq<char>, Seq<(Seq<char>, int, int)>)>::empty()
            =~= image_data_view(out@));
    }
    Ok(out)
}

/// A fault that aborts the whole image scan.
#[derive(Debug)]
pub enum ImageScanFault {
    /// A walked file does not lie under the scanned root; holds the path.
    NotUnderRoot(String),
    /// A candidate whose name matched could not be probed; holds the
    /// probed path.
    Unreadable(String),
}

/// Checks a candidate against its directory's group: the candidates under
/// the key are tried in order until one matches by name; a matching name
/// with the wrong probed size is the size finding, a missing key or no
/// matching name is the name finding.
pub fn validate_image(path: &str, relative_path: &str, images_dir: &str, data: &DataMap) -> (r:
    Result<ItemStatus<InvalidImage>, ImageScanFault>)
    ensures
        match r {
            Ok(st) => match st {
                ItemStatus::Valid => ({
                    let gi = spec_pair_index(image_data_view(data@), spec_key_name_of(path@, images_dir@));
                    gi >= 0 && exists|c: int|
                        0 <= c < data@[gi].1@.len() && (#[trigger] data@[gi].1@[c]).file_name@
                            == spec_file_name(path@)
                }),
                ItemStatus::Invalid(b) => match b@ {
                    InvalidImageView::BadName(p) => p == relative_path@ && ({
                        let gi = spec_pair_index(
                            image_data_view(data@),
                            spec_key_name_of(path@, images_dir@),
                        );
                        gi < 0 || forall|c: int|
                            0 <= c < data@[gi].1@.len() ==> (
                            #[trigger] data@[gi].1@[c]).file_name@ != spec_file_name(path@)
                    }),
                    InvalidImageView::BadSize(p, got, expected) => p == relative_path@ && got
                        != expected && ({
                        let gi = spec_pair_index(
                            image_data_view(data@),
                            spec_key_name_of(path@, images_dir@),
                        );
                        gi >= 0 && exists|c: int|
                            0 <= c < data@[gi].1@.len() && (#[trigger] data@[gi].1@[c]).file_name@
                                == spec_file_name(path@) && data@[gi].1@[c].size == expected
                    }),
                    InvalidImageView::Unreadable(_) => false,
                },
                ItemStatus::Ignored => false,
            },
            Err(ImageScanFault::NotUnderRoot(p)) => p@ == path@ && spec_strip_prefix(
                spec_parent(path@),
                images_dir@,
            ) is None,
            Err(ImageScanFault::Unreadable(p)) => p@ == spec_push(
                spec_parent(path@),
                spec_file_name(path@),
            ) && ({
                let gi = spec_pair_index(
                    image_data_view(data@),
                    spec_key_name_of(path@, images_dir@),
                );
                gi >= 0 && exists|c: int|
                    0 <= c < data@[gi].1@.len() && (#[trigger] data@[gi].1@[c]).file_name@
                        == spec_file_name(path@)
            }),
        },
        ({
            let gi = spec_pair_index(
                image_data_view(data@),
                spec_key_name_of(path@, images_dir@),
            );
            (spec_strip_prefix(spec_parent(path@), images_dir@) is Some && (gi < 0 || forall|
                c: int,
            |
                0 <= c < data@[gi].1@.len() ==> (#[trigger] data@[gi].1@[c]).file_name@
                    != spec_file_name(path@))) ==> (r matches Ok(st) && st@ == ItemStatus::<
                InvalidImageView,
            >::Invalid(InvalidImageView::BadName(relative_path@)))
        }),
{
    let ghost dv = image_data_view(data@);
    let stripped = match paths::sanitize_path(path, images_dir) {
        None => {
            return Err(ImageScanFault::NotUnderRoot(path.to_owned()));
        },
        Some(s) => s,
    };
    let dir = paths::parent_dir(path);
    let dir_key = paths::path_buf_to_key_name(stripped.as_str());
    let file_name = paths::file_name(path);
    let n = data.len();
    let mut i: usize = 0;
    while i < n
        invariant
            n == data@.len(),
            dv == image_data_view(data@),
            spec_strip_prefix(spec_parent(path@), images_dir@) == Some(stripped@),
            dir_key@ == spec_key_name(stripped@),
            file_name@ == spec_file_name(path@),
            dir@ == spec_parent(path@),
            i <= n,
            forall|j: int| 0 <= j < i ==> (#[trigger] dv[j]).0 != dir_key@,
        decreases n - i,
    {
        proof {
            assert(dv[i as int] == (data@[i as int].0@, images_view(data@[i as int].1@)));
        }
        if str_eq(data[i].0.as_str(), dir_key.as_str()) {
            proof {
                lemma_pair_index(dv, dir_key@);
                let idx = spec_pair_index(dv, dir_key@);
                assert(dv[i as int].0 == dir_key@);
                assert(idx >= 0);
                if idx < i as int {
                    assert(dv[idx].0 != dir_key@);
                }
                if idx > i as int {
                    assert(dv[i as int].0 != dir_key@);
                }
                assert(idx == i as int);
            }
            let group = &data[i].1;
            let m = group.len();
            let mut c: usize = 0;
            while c < m
                invariant
                    m == group@.len(),
                    group@ == data@[i as int].1@,
                    i < n,
                    n == data@.len(),
                    dv == image_data_view(data@),
                    spec_pair_index(dv, spec_key_name_of(path@, images_dir@)) == i as int,
                    file_name@ == spec_file_name(path@),
                    dir@ == spec_parent(path@),
                    c <= m,
                    forall|x: int|
                        0 <= x < c ==> (#[trigger] group@[x]).file_name@ != file_name@,
                decreases m - c,
            {
                match group[c].validate_image(dir.as_str(), file_name.as_str()) {
                    Ok(()) => {
                        return Ok(ItemStatus::Valid);
                    },
                    Err(InvalidImage::BadName(_)) => {},
                    Err(InvalidImage::BadSize(_, got, expected)) => {
                        return Ok(
                            ItemStatus::Invalid(
                                InvalidImage::BadSize(relative_path.to_owned(), got, expected),
                            ),
                        );
                    },
                    Err(InvalidImage::Unreadable(p)) => {
                        return Err(ImageScanFault::Unreadable(p));
                    },
                }
                c = c + 1;
            }
            return Ok(ItemStatus::Invalid(InvalidImage::BadName(relative_path.to_owned())));
        }
        i = i + 1;
    }
    proof {
        lemma_pair_index(dv, dir_key@);
        let idx = spec_pair_index(dv, dir_key@);
        if idx >= 0 {
            assert(dv[idx].0 != dir_key@);
        }
    }
    Ok(ItemStatus::Invalid(InvalidImage::BadName(relative_path.to_owned())))
}

/// The directory key a candidate resolves to under the scanned root.
pub open spec fn spec_key_name_of(path: Seq<char>, dir: Seq<char>) -> Seq<char> {
    match spec_strip_prefix(spec_parent(path), dir) {
        Some(p) => spec_key_name(p),
        None => Seq::empty(),
    }
}

/// The candidate-relative path a finding names.
pub open spec fn spec_finding_path(b: InvalidImageView) -> Seq<char> {
    match b {
        InvalidImageView::BadName(p) => p,
        InvalidImageView::BadSize(p, _, _) => p,
        InvalidImageView::Unreadable(p) => p,
    }
}

/// Every finding names the relative path of some considered entry.
pub open spec fn spec_findings_from_candidates(
    items: Seq<InvalidImage>,
    es: Seq<(Seq<char>, bool)>,
    dir: Seq<char>,
) -> bool {
    forall|j: int|
        0 <= j < items.len() ==> exists|q: int|
            0 <= q < es.len() && spec_is_candidate(#[trigger] es[q]) && spec_strip_prefix(
                es[q].0,
                dir,
            ) == Some(spec_finding_path((#[trigger] items[j])@))
}

/// Why the image scan could not run at all.
#[derive(Debug)]
pub enum ImageScanError {
    /// The snapshot failed the version gate.
    Version(SlopValidationError),
    /// The snapshot carries no `!count` entry.
    MissingCount,
    /// The `!count` entry does not read as a 32-bit number.
    BadCount,
    /// The snapshot's entries are malformed.
    Reference(ImageRefError),
    /// A walked file does not lie under the scanned root; holds the path.
    NotUnderRoot(String),
    /// A candidate whose name matched could not be probed; holds the path.
    Unreadable(String),
}

/// Scans the walked entries against the image snapshot. The contract is a
/// complete case split: the snapshot must pass the version gate before any
/// entry is looked at, each deterministic error comes exactly on its own
/// condition, a walk fault names the considered entry it arose from, and
/// when no `.png` candidate stands in the walk — so no probe can decide —
/// success is owed outright. On success every considered entry was counted
/// exactly once, and the per-candidate rule is fixed by [`validate_image`].
pub fn scan_images(entries: &Vec<FsEntry>, images_dir: &str, slop: Slop) -> (r: Result<
    (Scanner<InvalidImage>, u32),
    ImageScanError,
>)
    requires
        entries@.len() < u32::MAX,
    ensures
        match r {
            Ok((sc, c)) => {
                &&& spec_validate_slop(slop@, IMAGE_REF_VERSION) is Ok
                &&& spec_parse_string(slop@, "!count"@) == Ok::<
                    Option<int>,
                    slopx::ParseStringError,
                >(Some(c as int))
                &&& spec_image_data_of(slop@) is Ok
                &&& sc.item_name@ == "images"@
                &&& sc.valid_count + sc.invalid_items@.len() == spec_candidate_count(
                    entries_view(entries@),
                    0,
                )
                &&& spec_findings_from_candidates(
                    sc.invalid_items@,
                    entries_view(entries@),
                    images_dir@,
                )
            },
            Err(ImageScanError::Version(e)) => spec_validate_slop(slop@, IMAGE_REF_VERSION)
                == Err::<(), SlopValidationError>(e),
            Err(ImageScanError::MissingCount) => spec_validate_slop(slop@, IMAGE_REF_VERSION)
                is Ok && spec_parse_string(slop@, "!count"@) == Ok::<
                Option<int>,
                slopx::ParseStringError,
            >(None),
            Err(ImageScanError::BadCount) => spec_validate_slop(slop@, IMAGE_REF_VERSION) is Ok
                && (spec_parse_string(slop@, "!count"@) is Err || (spec_parse_string(
                slop@,
                "!count"@,
            ) matches Ok(Some(v)) && v > u32::MAX)),
            Err(ImageScanError::Reference(err)) => spec_validate_slop(slop@, IMAGE_REF_VERSION)
                is Ok && (spec_parse_string(slop@, "!count"@) matches Ok(Some(v)) && v
                <= u32::MAX) && spec_image_data_of(slop@) == Err::<
                Seq<(Seq<char>, Seq<(Seq<char>, int, int)>)>,
                ImageRefErrorView,
            >(err@),
            Err(ImageScanError::NotUnderRoot(p)) => spec_validate_slop(
                slop@,
                IMAGE_REF_VERSION,
            ) is Ok && spec_image_data_of(slop@) is Ok && (exists|q: int|
                0 <= q < entries@.len() && spec_is_candidate(
                    #[trigger] entries_view(entries@)[q],
                ) && entries_view(entries@)[q].0 == p@ && (spec_strip_prefix(
                    entries_view(entries@)[q].0,
                    images_dir@,
                ) is None || spec_strip_prefix(
                    spec_parent(entries_view(entries@)[q].0),
                    images_dir@,
                ) is None)),
            Err(ImageScanError::Unreadable(p)) => spec_validate_slop(slop@, IMAGE_REF_VERSION)
                is Ok && spec_image_data_of(slop@) is Ok && (exists|q: int|
                0 <= q < entries@.len() && spec_is_candidate(
                    #[trigger] entries_view(entries@)[q],
                ) && p@ == spec_push(
                    spec_parent(entries_view(entries@)[q].0),
                    spec_file_name(entries_view(entries@)[q].0),
                )),
        },
        ({
            (spec_validate_slop(slop@, IMAGE_REF_VERSION) is Ok && (spec_parse_string(
                slop@,
                "!count"@,
            ) matches Ok(Some(v)) && v <= u32::MAX) && spec_image_data_of(slop@) is Ok && (
            forall|q: int|
                0 <= q < entries@.len() && spec_is_candidate(
                    #[trigger] entries_view(entries@)[q],
                ) ==> spec_strip_prefix(entries_view(entries@)[q].0, images_dir@) is Some
                    && spec_extension(spec_file_name(entries_view(entries@)[q].0)) != Some(
                    "png"@,
                ))) ==> r is Ok
        }),
{
    match crate::static_file_data::validate_slop(&slop, IMAGE_REF_VERSION) {
        Err(e) => {
            return Err(ImageScanError::Version(e));
        },
        Ok(()) => {},
    }
    let count: u32 = match slopx::parse_string(&slop, crate::static_file_data::count_key()) {
        Ok(Some(v)) => {
            if v > 0xffff_ffffu64 {
                return Err(ImageScanError::BadCount);
            }
            v as u32
        },
        Ok(None) => {
            return Err(ImageScanError::MissingCount);
        },
        Err(_) => {
            return Err(ImageScanError::BadCount);
        },
    };
    let ghost pv = slop@;
    let data = match slop_into_image_data(slop) {
        Ok(d) => d,
        Err(e) => {
            return Err(ImageScanError::Reference(e));
        },
    };
    let ghost ev = entries_view(entries@);
    let mut scanner: Scanner<InvalidImage> = Scanner::new("images");
    let n = entries.len();
    let mut i: usize = 0;
    while i < n
        invariant
            n == entries@.len(),
            n < u32::MAX,
            pv == slop@,
            ev == entries_view(entries@),
            spec_validate_slop(pv, IMAGE_REF_VERSION) is Ok,
            spec_parse_string(pv, "!count"@) == Ok::<Option<int>, slopx::ParseStringError>(
                Some(count as int),
            ),
            spec_image_data_of(pv) is Ok,
            i <= n,
            scanner.item_name@ == "images"@,
            scanner.valid_count + scanner.invalid_items@.len() + spec_candidate_count(
                ev,
                i as int,
            ) == spec_candidate_count(ev, 0),
            spec_findings_from_candidates(scanner.invalid_items@, ev, images_dir@),
        decreases n - i,
    {
        let e = &entries[i];
        proof {
            assert(ev[i as int] == (entries@[i as int].path@, entries@[i as int].is_dir));
            lemma_candidate_count_bound(ev, i as int);
            lemma_candidate_count_bound(ev, 0);
        }
        let status: ItemStatus<InvalidImage> = if e.is_dir {
            ItemStatus::Ignored
        } else {
            let name = paths::file_name(e.path.as_str());
            if str_eq(name.as_str(), "desktop.ini") {
                ItemStatus::Ignored
            } else {
                match paths::strip_prefix(e.path.as_str(), images_dir) {
                    None => {
                        proof {
                            assert(spec_is_candidate(ev[i as int]));
                        }
                        return Err(ImageScanError::NotUnderRoot(e.path.clone()));
                    },
                    Some(rel) => {
                        let nn = name.unicode_len();
                        proof {
                            lemma_rfind(name@, '.');
                        }
                        let (found, d) = rfind_char(name.as_str(), '.');
                        if !found || d == 0 {
                            ItemStatus::Invalid(InvalidImage::BadName(rel))
                        } else {
                            let ext = name.as_str().substring_char(d + 1, nn);
                            if !str_eq(ext, "png") {
                                ItemStatus::Invalid(InvalidImage::BadName(rel))
                            } else {
                                proof {
                                    assert(spec_is_candidate(ev[i as int]));
                                    assert(name@ == spec_file_name(ev[i as int].0));
                                    assert(spec_extension(spec_file_name(ev[i as int].0))
                                        == Some("png"@));
                                }
                                match validate_image(
                                    e.path.as_str(),
                                    rel.as_str(),
                                    images_dir,
                                    &data,
                                ) {
                                    Ok(st) => st,
                                    Err(ImageScanFault::NotUnderRoot(p)) => {
                                        return Err(ImageScanError::NotUnderRoot(p));
                                    },
                                    Err(ImageScanFault::Unreadable(p)) => {
                                        return Err(ImageScanError::Unreadable(p));
                                    },
                                }
                            }
                        }
                    },
                }
            }
        };
        proof {
            if spec_is_candidate(ev[i as int]) {
                assert(!(status is Ignored));
            }
            match status@ {
                ItemStatus::Invalid(b) => {
                    assert(spec_strip_prefix(ev[i as int].0, images_dir@) == Some(
                        spec_finding_path(b),
                    ));
                },
                _ => {},
            }
        }
        let ghost inv_pre = scanner.invalid_items@;
        scanner.register(status);
        proof {
            assert forall|j: int| 0 <= j < scanner.invalid_items@.len() implies exists|q: int|
                0 <= q < ev.len() && spec_is_candidate(#[trigger] ev[q]) && spec_strip_prefix(
                    ev[q].0,
                    images_dir@,
                ) == Some(spec_finding_path((#[trigger] scanner.invalid_items@[j])@)) by {
                if j < inv_pre.len() {
                    assert(scanner.invalid_items@[j] == inv_pre[j]);
                    let q = choose|q: int|
                        0 <= q < ev.len() && spec_is_candidate(#[trigger] ev[q])
                            && spec_strip_prefix(ev[q].0, images_dir@) == Some(
                            spec_finding_path(inv_pre[j]@),
                        );
                    assert(0 <= q < ev.len() && spec_is_candidate(ev[q]) && spec_strip_prefix(
                        ev[q].0,
                        images_dir@,
                    ) == Some(spec_finding_path(scanner.invalid_items@[j]@)));
                } else {
                    assert(0 <= i as int && (i as int) < ev.len() && spec_is_candidate(ev[i as int])
                        && spec_strip_prefix(ev[i as int].0, images_dir@) == Some(
                        spec_finding_path(scanner.invalid_items@[j]@),
                    ));
                }
            }
            assert(spec_findings_from_candidates(scanner.invalid_items@, ev, images_dir@));
        }
        i = i + 1;
    }
    proof {
        assert(spec_candidate_count(ev, n as int) == 0);
    }
    Ok((scanner, count))
}

} // verus!
