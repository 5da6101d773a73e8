//! The sound scan: each candidate must be an `.xnb` file whose name stands
//! verbatim in its directory's group of the sound snapshot.

use vstd::prelude::*;

use crate::paths;
use crate::paths::{
    FsEntry, entries_view, spec_extension, spec_file_name, spec_key_name, spec_parent,
    spec_strip_prefix,
};
use crate::scanner::{ItemStatus, Scanner};
use crate::slop::{Slop, SlopValue, SlopValueView};
use crate::slopx;
use crate::slopx::spec_parse_string;
use crate::static_file_data::{SOUND_REF_VERSION, SlopValidationError, spec_validate_slop};
use crate::text::{
    strs_view, spec_contains_str, vec_contains_str, spec_pair_index, lemma_pair_index,
    clone_strings, rfind_char, lemma_rfind, str_eq,
};

verus! {

/// The possible kinds of invalid sounds.
pub enum InvalidSound {
    /// The name was not found in the reference; holds the path.
    BadName(String),
    /// The file is not in the packaged XNB format; holds the path.
    BadExtension(String),
}

/// The mathematical form of an [`InvalidSound`].
pub enum InvalidSoundView {
    BadName(Seq<char>),
    BadExtension(Seq<char>),
}

impl View for InvalidSound {
    type V = InvalidSoundView;

    open spec fn view(&self) -> InvalidSoundView {
        match self {
            InvalidSound::BadName(p) => InvalidSoundView::BadName(p@),
            InvalidSound::BadExtension(p) => InvalidSoundView::BadExtension(p@),
        }
    }
}

impl InvalidSound {
    /// The report line for this finding.
    pub open spec fn spec_message(self) -> Seq<char> {
        match self@ {
            InvalidSoundView::BadName(p) => p + "\t: Name not found in the reference."@,
            InvalidSoundView::BadExtension(p) => p + "\t: Sound files must be in the XNB format."@,
        }
    }

    /// Renders the report line.
    pub fn message(&self) -> (r: String)
        ensures
            r@ == self.spec_message(),
    {
        match self {
            InvalidSound::BadName(p) => {
                let mut out = p.clone();
                out.append("\t: Name not found in the reference.");
                out
            },
            InvalidSound::BadExtension(p) => {
                let mut out = p.clone();
                out.append("\t: Sound files must be in the XNB format.");
                out
            },
        }
    }
}

/// The data taken from the sound snapshot: per directory key, the expected
/// packaged file names.
pub type DataMap = Vec<(String, Vec<String>)>;

/// The mathematical form of a [`DataMap`].
pub open spec fn data_map_view(d: Seq<(String, Vec<String>)>) -> Seq<(Seq<char>, Seq<Seq<char>>)> {
    Seq::new(d.len(), |i: int| (d[i].0@, strs_view(d[i].1@)))
}

/// Why the sound snapshot cannot be used.
#[derive(Debug)]
pub enum SoundRefError {
    /// A non-reserved key holds a scalar instead of a list; holds the key.
    NotAList(String),
}

/// The groups the snapshot holds: reserved `!` keys are passed over, and
/// every other key must carry a list.
pub open spec fn spec_sound_data_of(pairs: Seq<(Seq<char>, SlopValueView)>) -> Result<
    Seq<(Seq<char>, Seq<Seq<char>>)>,
    Seq<char>,
>
    decreases pairs.len(),
{
    if pairs.len() == 0 {
        Ok(Seq::empty())
    } else {
        let k = pairs[0].0;
        if k.len() > 0 && k[0] == '!' {
            spec_sound_data_of(pairs.drop_first())
        } else {
            match pairs[0].1 {
                SlopValueView::Str(_) => Err(k),
                SlopValueView::List(es) => match spec_sound_data_of(pairs.drop_first()) {
                    Ok(rest) => Ok(seq![(k, es)] + rest),
                    Err(e) => Err(e),
                },
            }
        }
    }
}

/// Prepends already converted groups to an outcome.
pub open spec fn spec_data_append(
    acc: Seq<(Seq<char>, Seq<Seq<char>>)>,
    r: Result<Seq<(Seq<char>, Seq<Seq<char>>)>, Seq<char>>,
) -> Result<Seq<(Seq<char>, Seq<Seq<char>>)>, Seq<char>> {
    match r {
        Ok(rest) => Ok(acc + rest),
        Err(e) => Err(e),
    }
}

/// Converts the snapshot into the directory-keyed name groups.
pub fn slop_into_sound_data(slop: Slop) -> (r: Result<DataMap, SoundRefError>)
    ensures
        match r {
            Ok(d) => spec_sound_data_of(slop@) == Ok::<Seq<(Seq<char>, Seq<Seq<char>>)>, Seq<char>>(
                data_map_view(d@),
            ),
            Err(SoundRefError::NotAList(k)) => spec_sound_data_of(slop@) == Err::<
                Seq<(Seq<char>, Seq<Seq<char>>)>,
                Seq<char>,
            >(k@),
        },
{
    let ghost pv = slop@;
    let items = slop.entries();
    let n = items.len();
    let mut out: DataMap = Vec::new();
    let mut i: usize = 0;
    proof {
        assert(pv.skip(0) =~= pv);
        assert(data_map_view(out@) =~= Seq::<(Seq<char>, Seq<Seq<char>>)>::empty());
        match spec_sound_data_of(pv) {
            Ok(rest) => {
                assert(Seq::<(Seq<char>, Seq<Seq<char>>)>::empty() + rest =~= rest);
            },
            Err(_) => {},
        }
    }
    while i < n
        invariant
            n == items@.len(),
            pv == slop@,
            pv == crate::slop::pairs_view(items@),
            i <= n,
            spec_sound_data_of(pv) == spec_data_append(
                data_map_view(out@),
                spec_sound_data_of(pv.skip(i as int)),
            ),
        decreases n - i,
    {
        let ghost dv0 = data_map_view(out@);
        let ghost suf = pv.skip(i as int);
        proof {
            assert(suf[0] == pv[i as int]);
            assert(suf.drop_first() =~= pv.skip(i as int + 1));
            assert(pv[i as int] == (items@[i as int].0@, items@[i as int].1@));
        }
        let key = &items[i].0;
        let kn = key.unicode_len();
        if kn > 0 && key.as_str().get_char(0) == '!' {
            i = i + 1;
            continue;
        }
        match &items[i].1 {
            SlopValue::Str(_) => {
                return Err(SoundRefError::NotAList(key.clone()));
            },
            SlopValue::List(l) => {
                let names = clone_strings(l);
                out.push((key.clone(), names));
                proof {
                    let ghost p0 = pv[i as int];
                    assert(data_map_view(out@) =~= dv0.push((p0.0, match p0.1 {
                        SlopValueView::List(es) => es,
                        SlopValueView::Str(_) => Seq::empty(),
                    })));
                    match spec_sound_data_of(pv.skip(i as int + 1)) {
                        Ok(rest) => {
                            assert(dv0 + (seq![(p0.0, match p0.1 {
                                SlopValueView::List(es) => es,
                                SlopValueView::Str(_) => Seq::empty(),
                            })] + rest) =~= data_map_view(out@) + rest);
                        },
                        Err(_) => {},
                    }
                }
            },
        }
        i = i + 1;
    }
    proof {
        assert(pv.skip(n as int) =~= Seq::<(Seq<char>, SlopValueView)>::empty());
        assert(data_map_view(out@) + Seq::<(Seq<char>, Seq<Seq<char>>)>::empty() =~= data_map_view(
            out@,
        ));
    }
    Ok(out)
}

/// A fault that aborts the whole sound scan.
#[derive(Debug)]
pub enum SoundScanFault {
    /// A walked file does not lie under the scanned root; holds the path.
    NotUnderRoot(String),
}

/// The membership rule for a candidate that already passed the extension
/// gate: its directory key must be present and its file name must stand in
/// that group.
pub open spec fn spec_validate_sound(
    path: Seq<char>,
    rel: Seq<char>,
    dir: Seq<char>,
    data: Seq<(Seq<char>, Seq<Seq<char>>)>,
) -> Result<ItemStatus<InvalidSoundView>, Seq<char>> {
    match spec_strip_prefix(spec_parent(path), dir) {
        None => Err(path),
        Some(p) => {
            let key = spec_key_name(p);
            let i = spec_pair_index(data, key);
            if i < 0 {
                Ok(ItemStatus::Invalid(InvalidSoundView::BadName(rel)))
            } else if spec_contains_str(data[i].1, spec_file_name(path)) {
                Ok(ItemStatus::Valid)
            } else {
                Ok(ItemStatus::Invalid(InvalidSoundView::BadName(rel)))
            }
        },
    }
}

/// Looks the candidate up in its directory's group.
pub fn validate_sound(path: &str, relative_path: &str, sounds_dir: &str, data: &DataMap) -> (r:
    Result<ItemStatus<InvalidSound>, SoundScanFault>)
    ensures
        match r {
            Ok(st) => spec_validate_sound(path@, relative_path@, sounds_dir@, data_map_view(data@))
                == Ok::<ItemStatus<InvalidSoundView>, Seq<char>>(st@),
            Err(SoundScanFault::NotUnderRoot(p)) => p@ == path@ && spec_validate_sound(
                path@,
                relative_path@,
                sounds_dir@,
                data_map_view(data@),
            ) == Err::<ItemStatus<InvalidSoundView>, Seq<char>>(path@),
        },
{
    let ghost dv = data_map_view(data@);
    let stripped = match paths::sanitize_path(path, sounds_dir) {
        None => {
            return Err(SoundScanFault::NotUnderRoot(path.to_owned()));
        },
        Some(s) => s,
    };
    let dir_key = paths::path_buf_to_key_name(stripped.as_str());
    let file_name = paths::file_name(path);
    let n = data.len();
    let mut i: usize = 0;
    while i < n
        invariant
            n == data@.len(),
            dv == data_map_view(data@),
            spec_strip_prefix(spec_parent(path@), sounds_dir@) == Some(stripped@),
            dir_key@ == spec_key_name(stripped@),
            file_name@ == spec_file_name(path@),
            i <= n,
            forall|j: int| 0 <= j < i ==> (#[trigger] dv[j]).0 != dir_key@,
        decreases n - i,
    {
        proof {
            assert(dv[i as int] == (data@[i as int].0@, strs_view(data@[i as int].1@)));
        }
        if str_eq(data[i].0.as_str(), dir_key.as_str()) {
            proof {
                lemma_pair_index(dv, dir_key@);
                let idx = spec_pair_index(dv, dir_key@);
                assert(dv[i as int].0 == dir_key@);
                assert(idx >= 0);
                if idx < i as int {
                    assert(dv[idx].0 != dir_key@);
                }
                if idx > i as int {
                    assert(dv[i as int].0 != dir_key@);
                }
                assert(idx == i as int);
            }
            return if vec_contains_str(&data[i].1, file_name.as_str()) {
                proof {
                    assert(dv[i as int].1 == strs_view(data@[i as int].1@));
                }
                Ok(ItemStatus::Valid)
            } else {
                proof {
                    assert(dv[i as int].1 == strs_view(data@[i as int].1@));
                }
                Ok(ItemStatus::Invalid(InvalidSound::BadName(relative_path.to_owned())))
            };
        }
        i = i + 1;
    }
    proof {
        lemma_pair_index(dv, dir_key@);
        let idx = spec_pair_index(dv, dir_key@);
        if idx >= 0 {
            assert(dv[idx].0 != dir_key@);
        }
    }
    Ok(ItemStatus::Invalid(InvalidSound::BadName(relative_path.to_owned())))
}

/// Classification of one walked entry for the sound scan.
pub open spec fn spec_sound_entry_status(
    e: (Seq<char>, bool),
    dir: Seq<char>,
    data: Seq<(Seq<char>, Seq<Seq<char>>)>,
) -> Result<ItemStatus<InvalidSoundView>, Seq<char>> {
    if e.1 || spec_file_name(e.0) == "desktop.ini"@ {
        Ok(ItemStatus::Ignored)
    } else {
        match spec_strip_prefix(e.0, dir) {
            None => Err(e.0),
            Some(rel) => match spec_extension(spec_file_name(e.0)) {
                None => Ok(ItemStatus::Invalid(InvalidSoundView::BadName(rel))),
                Some(x) => if x != "xnb"@ {
                    Ok(ItemStatus::Invalid(InvalidSoundView::BadExtension(rel)))
                } else {
                    spec_validate_sound(e.0, rel, dir, data)
                },
            },
        }
    }
}

/// How many entries classify as valid.
pub open spec fn spec_sound_valid_count(
    es: Seq<(Seq<char>, bool)>,
    dir: Seq<char>,
    data: Seq<(Seq<char>, Seq<Seq<char>>)>,
) -> int
    decreases es.len(),
{
    if es.len() == 0 {
        0int
    } else {
        spec_sound_valid_count(es.drop_last(), dir, data) + if spec_sound_entry_status(
            es.last(),
            dir,
            data,
        ) == Ok::<ItemStatus<InvalidSoundView>, Seq<char>>(ItemStatus::Valid) {
            1int
        } else {
            0int
        }
    }
}

/// The invalid findings, in walk order.
pub open spec fn spec_sound_invalids(
    es: Seq<(Seq<char>, bool)>,
    dir: Seq<char>,
    data: Seq<(Seq<char>, Seq<Seq<char>>)>,
) -> Seq<InvalidSoundView>
    decreases es.len(),
{
    if es.len() == 0 {
        Seq::empty()
    } else {
        spec_sound_invalids(es.drop_last(), dir, data) + (match spec_sound_entry_status(
            es.last(),
            dir,
            data,
        ) {
            Ok(ItemStatus::Invalid(b)) => seq![b],
            _ => Seq::empty(),
        })
    }
}

/// The first walked entry the classification faults on, if any: the path
/// of the first file that does not lie under the scanned root.
pub open spec fn spec_first_sound_fault(
    es: Seq<(Seq<char>, bool)>,
    dir: Seq<char>,
    data: Seq<(Seq<char>, Seq<Seq<char>>)>,
    i: int,
) -> Option<Seq<char>>
    decreases es.len() - i,
{
    if i < 0 || i >= es.len() {
        None
    } else {
        match spec_sound_entry_status(es[i], dir, data) {
            Err(p) => Some(p),
            Ok(_) => spec_first_sound_fault(es, dir, data, i + 1),
        }
    }
}

/// Why the sound scan could not run at all.
#[derive(Debug)]
pub enum SoundScanError {
    /// The snapshot failed the version gate.
    Version(SlopValidationError),
    /// The snapshot carries no `!count` entry.
    MissingCount,
    /// The `!count` entry does not read as a 32-bit number.
    BadCount,
    /// A non-reserved key holds a scalar; holds the key.
    Reference(String),
    /// A walked file does not lie under the scanned root; holds the path.
    NotUnderRoot(String),
}

/// Scans the walked entries against the sound snapshot. The contract is a
/// complete case split: the snapshot must pass the version gate before any
/// entry is looked at, each error comes exactly on its own condition, and
/// whenever nothing fails the scan succeeds with counts and findings that
/// are exactly what the classification rule says, entry by entry.
pub fn scan_sounds(entries: &Vec<FsEntry>, sounds_dir: &str, slop: Slop) -> (r: Result<
    (Scanner<InvalidSound>, u32),
    SoundScanError,
>)
    requires
        entries@.len() < u32::MAX,
    ensures
        match r {
            Ok((sc, c)) => {
                &&& spec_validate_slop(slop@, SOUND_REF_VERSION) is Ok
                &&& spec_parse_string(slop@, "!count"@) == Ok::<
                    Option<int>,
                    slopx::ParseStringError,
                >(Some(c as int))
                &&& spec_sound_data_of(slop@) matches Ok(dv) && sc.valid_count
                    == spec_sound_valid_count(entries_view(entries@), sounds_dir@, dv)
                    && Seq::new(sc.invalid_items@.len(), |q: int| sc.invalid_items@[q]@)
                    == spec_sound_invalids(entries_view(entries@), sounds_dir@, dv)
                    && spec_first_sound_fault(entries_view(entries@), sounds_dir@, dv, 0)
                    is None
                &&& sc.item_name@ == "sounds"@
            },
            Err(SoundScanError::Version(e)) => spec_validate_slop(slop@, SOUND_REF_VERSION)
                == Err::<(), SlopValidationError>(e),
            Err(SoundScanError::MissingCount) => spec_validate_slop(slop@, SOUND_REF_VERSION)
                is Ok && spec_parse_string(slop@, "!count"@) == Ok::<
                Option<int>,
                slopx::ParseStringError,
            >(None),
            Err(SoundScanError::BadCount) => spec_validate_slop(slop@, SOUND_REF_VERSION) is Ok
                && (spec_parse_string(slop@, "!count"@) is Err || (spec_parse_string(
                slop@,
                "!count"@,
            ) matches Ok(Some(v)) && v > u32::MAX)),
            Err(SoundScanError::Reference(k)) => spec_validate_slop(slop@, SOUND_REF_VERSION)
                is Ok && (spec_parse_string(slop@, "!count"@) matches Ok(Some(v)) && v
                <= u32::MAX) && spec_sound_data_of(slop@) == Err::<
                Seq<(Seq<char>, Seq<Seq<char>>)>,
                Seq<char>,
            >(k@),
            Err(SoundScanError::NotUnderRoot(p)) => spec_validate_slop(
                slop@,
                SOUND_REF_VERSION,
            ) is Ok && (spec_parse_string(slop@, "!count"@) matches Ok(Some(v)) && v
                <= u32::MAX) && (spec_sound_data_of(slop@) matches Ok(dv)
                && spec_first_sound_fault(entries_view(entries@), sounds_dir@, dv, 0) == Some(
                p@,
            )),
        },
{
    match crate::static_file_data::validate_slop(&slop, SOUND_REF_VERSION) {
        Err(e) => {
            return Err(SoundScanError::Version(e));
        },
        Ok(()) => {},
    }
    let count: u32 = match slopx::parse_string(&slop, crate::static_file_data::count_key()) {
        Ok(Some(v)) => {
            if v > 0xffff_ffffu64 {
                return Err(SoundScanError::BadCount);
            }
            v as u32
        },
        Ok(None) => {
            return Err(SoundScanError::MissingCount);
        },
        Err(_) => {
            return Err(SoundScanError::BadCount);
        },
    };
    let ghost pv = slop@;
    let data = match slop_into_sound_data(slop) {
        Ok(d) => d,
        Err(SoundRefError::NotAList(k)) => {
            return Err(SoundScanError::Reference(k));
        },
    };
    let ghost dv = data_map_view(data@);
    let ghost ev = entries_view(entries@);
    let mut scanner: Scanner<InvalidSound> = Scanner::new("sounds");
    let n = entries.len();
    let mut i: usize = 0;
    proof {
        assert(ev.subrange(0, 0) =~= Seq::<(Seq<char>, bool)>::empty());
        assert(Seq::new(scanner.invalid_items@.len(), |q: int| scanner.invalid_items@[q]@)
            =~= Seq::<InvalidSoundView>::empty());
    }
    while i < n
        invariant
            n == entries@.len(),
            n < u32::MAX,
            ev == entries_view(entries@),
            dv == data_map_view(data@),
            pv == slop@,
            spec_validate_slop(pv, SOUND_REF_VERSION) is Ok,
            spec_parse_string(pv, "!count"@) == Ok::<Option<int>, slopx::ParseStringError>(
                Some(count as int),
            ),
            spec_sound_data_of(pv) == Ok::<Seq<(Seq<char>, Seq<Seq<char>>)>, Seq<char>>(dv),
            i <= n,
            scanner.item_name@ == "sounds"@,
            scanner.valid_count <= i,
            scanner.valid_count == spec_sound_valid_count(
                ev.subrange(0, i as int),
                sounds_dir@,
                dv,
            ),
            Seq::new(scanner.invalid_items@.len(), |q: int| scanner.invalid_items@[q]@)
                == spec_sound_invalids(ev.subrange(0, i as int), sounds_dir@, dv),
            spec_first_sound_fault(ev, sounds_dir@, dv, 0) == spec_first_sound_fault(
                ev,
                sounds_dir@,
                dv,
                i as int,
            ),
        decreases n - i,
    {
        let e = &entries[i];
        proof {
            assert(ev[i as int] == (entries@[i as int].path@, entries@[i as int].is_dir));
        }
        let status: ItemStatus<InvalidSound> = if e.is_dir {
            ItemStatus::Ignored
        } else {
            let name = paths::file_name(e.path.as_str());
            if str_eq(name.as_str(), "desktop.ini") {
                ItemStatus::Ignored
            } else {
                match paths::strip_prefix(e.path.as_str(), sounds_dir) {
                    None => {
                        proof {
                            assert(spec_sound_entry_status(ev[i as int], sounds_dir@, dv)
                                == Err::<ItemStatus<InvalidSoundView>, Seq<char>>(e.path@));
                            assert(spec_first_sound_fault(ev, sounds_dir@, dv, i as int)
                                == Some(e.path@));
                        }
                        return Err(SoundScanError::NotUnderRoot(e.path.clone()));
                    },
                    Some(rel) => {
                        let nn = name.unicode_len();
                        proof {
                            lemma_rfind(name@, '.');
                        }
                        let (found, d) = rfind_char(name.as_str(), '.');
                        if !found || d == 0 {
                            ItemStatus::Invalid(InvalidSound::BadName(rel))
                        } else {
                            let ext = name.as_str().substring_char(d + 1, nn);
                            if !str_eq(ext, "xnb") {
                                ItemStatus::Invalid(InvalidSound::BadExtension(rel))
                            } else {
                                match validate_sound(
                                    e.path.as_str(),
                                    rel.as_str(),
                                    sounds_dir,
                                    &data,
                                ) {
                                    Ok(st) => st,
                                    Err(SoundScanFault::NotUnderRoot(p)) => {
                                        proof {
                                            assert(spec_sound_entry_status(
                                                ev[i as int],
                                                sounds_dir@,
                                                dv,
                                            ) == Err::<
                                                ItemStatus<InvalidSoundView>,
                                                Seq<char>,
                                            >(e.path@));
                                            assert(spec_first_sound_fault(
                                                ev,
                                                sounds_dir@,
                                                dv,
                                                i as int,
                                            ) == Some(e.path@));
                                        }
                                        return Err(SoundScanError::NotUnderRoot(p));
                                    },
                                }
                            }
                        }
                    },
                }
            }
        };
        proof {
            assert(spec_sound_entry_status(ev[i as int], sounds_dir@, dv) == Ok::<
                ItemStatus<InvalidSoundView>,
                Seq<char>,
            >(status@));
        }
        scanner.register(status);
        proof {
            let taken = ev.subrange(0, i as int + 1);
            assert(taken.drop_last() =~= ev.subrange(0, i as int));
            assert(taken.last() == ev[i as int]);
            match status@ {
                ItemStatus::Invalid(b) => {
                    assert(Seq::new(
                        scanner.invalid_items@.len(),
                        |q: int| scanner.invalid_items@[q]@,
                    ) =~= spec_sound_invalids(ev.subrange(0, i as int), sounds_dir@, dv) + seq![
                        b,
                    ]);
                },
                _ => {},
            }
        }
        i = i + 1;
    }
    proof {
        assert(ev.subrange(0, n as int) =~= ev);
    }
    Ok((scanner, count))
}

/// A reference entry built from a source name
/// `stem.wav` holds the packaged name `stem.xnb`: the packaged name always
/// carries the accepted `xnb` extension, so a candidate bearing it passes
/// the format gate and the membership test against a group holding it;
/// the source name itself, with its `wav` extension, fails the packaged
/// format gate, and can never equal a packaged name.
pub proof fn lemma_sound_extension_swap(name: Seq<char>, group: Seq<Seq<char>>)
    requires
        spec_extension(name) == Some("wav"@),
        spec_contains_str(group, crate::gen::sounds::spec_converted(name)),
    ensures
        spec_extension(crate::gen::sounds::spec_converted(name)) == Some("xnb"@),
        spec_extension(name) != Some("xnb"@),
        crate::gen::sounds::spec_converted(name) != name,
{
    reveal_strlit("wav");
    reveal_strlit("xnb");
    crate::text::lemma_rfind(name, '.');
    let d = crate::text::spec_rfind(name, '.');
    assert(d > 0);
    assert(name[d] == '.');
    assert(name.subrange(d + 1, name.len() as int) == "wav"@);
    assert("wav"@.len() == 3);
    assert("xnb"@.len() == 3);
    assert(name.subrange(d + 1, name.len() as int).len() == name.len() - d - 1);
    assert(name.len() == d + 4);
    let conv = crate::gen::sounds::spec_converted(name);
    assert(conv.len() == d + 4);
    assert(conv[d] == name[d]);
    assert forall|x: int| d < x < conv.len() implies conv[x] != '.' by {
        assert(conv[x] == "xnb"@[x - d - 1]);
    }
    crate::text::lemma_rfind_exact(conv, '.', d);
    assert(conv.subrange(d + 1, conv.len() as int) =~= "xnb"@);
    assert("wav"@ != "xnb"@) by {
        assert("wav"@[0] == 'w' && "xnb"@[0] == 'x');
    }
    if conv == name {
        assert(spec_extension(conv) == spec_extension(name));
    }
}

} // verus!
