//! The sound reference builder: every `.wav` source is recorded under the
//! packaged `.xnb` name it will carry after the build pipeline transcodes
//! it; anything else is collected as invalid.

use vstd::prelude::*;

use crate::gen::scan_data::{ScanData, spec_total, spec_key_index};
use crate::paths;
use crate::paths::{
    FsEntry, entries_view, spec_extension, spec_file_name, spec_key_name, spec_parent,
    spec_strip_prefix,
};
use crate::slop::{Slop, SlopValue, SlopValueView, lemma_index_of, spec_index_of};
use crate::static_file_data::SOUND_REF_VERSION;
use crate::text::{
    spec_digits, spec_rfind, spec_pair_index, u64_string, rfind_char, str_eq, lemma_rfind,
};

verus! {

/// A file that cannot enter the sound reference: it has no `.wav`
/// extension. Holds the path.
#[derive(Debug)]
pub struct InvalidSound {
    pub path: String,
}

impl InvalidSound {
    /// The report line for this entry.
    pub open spec fn spec_message(self) -> Seq<char> {
        self.path@ + "\t: Doesn't have a `.wav` file extension."@
    }

    /// Renders the report line.
    pub fn message(&self) -> (r: String)
        ensures
            r@ == self.spec_message(),
    {
        let mut out = self.path.clone();
        out.append("\t: Doesn't have a `.wav` file extension.");
        out
    }
}

/// The packaged name of a sound source: everything up to and including the
/// last dot, then `xnb`.
pub open spec fn spec_converted(name: Seq<char>) -> Seq<char> {
    name.subrange(0, spec_rfind(name, '.') + 1) + "xnb"@
}

/// One sound entry of the reference: the packaged file name.
pub struct SoundData {
    pub path: String,
}

impl SoundData {
    /// Accepts a `.wav` source file and stores the packaged `.xnb` name;
    /// rejects any other extension.
    pub fn open(path: &str) -> (r: Result<SoundData, InvalidSound>)
        ensures
            match r {
                Ok(d) => spec_extension(spec_file_name(path@)) == Some("wav"@) && d.path@
                    == spec_converted(spec_file_name(path@)),
                Err(b) => spec_extension(spec_file_name(path@)) != Some("wav"@) && b.path@
                    == path@,
            },
    {
        let name = paths::file_name(path);
        let n = name.unicode_len();
        proof {
            lemma_rfind(name@, '.');
            reveal_strlit("wav");
            reveal_strlit("xnb");
        }
        let (found, d) = rfind_char(name.as_str(), '.');
        if !found || d == 0 {
            return Err(InvalidSound { path: path.to_owned() });
        }
        let ext = name.as_str().substring_char(d + 1, n);
        if !str_eq(ext, "wav") {
            return Err(InvalidSound { path: path.to_owned() });
        }
        let mut out = name.as_str().substring_char(0, d + 1).to_owned();
        out.append("xnb");
        Ok(SoundData { path: out })
    }
}

/// The snapshot a sound group table denotes: `!version`, `!count`, then
/// one list of packaged names per directory key, in held order.
pub open spec fn spec_sound_slop(
    groups: Seq<(String, Vec<SoundData>)>,
    count: int,
) -> Seq<(Seq<char>, SlopValueView)> {
    seq![
        ("!version"@, SlopValueView::Str(spec_digits(SOUND_REF_VERSION as nat))),
        ("!count"@, SlopValueView::Str(spec_digits(count as nat))),
    ] + Seq::new(
        groups.len(),
        |i: int|
            (
                groups[i].0@,
                SlopValueView::List(
                    Seq::new(groups[i].1@.len(), |j: int| groups[i].1@[j].path@),
                ),
            ),
    )
}

/// Serializes the collected sound groups into a snapshot carrying the
/// sound format version and the joined count of valid and invalid items.
pub fn generate_slop(data: &ScanData<SoundData, InvalidSound>) -> (r: Slop)
    requires
        data.wf(),
        spec_total(data.valid_entries@) + data.invalid_entries@.len() <= usize::MAX,
        forall|i: int|
            0 <= i < data.valid_entries@.len() ==> (#[trigger] data.valid_entries@[i]).0@.len() > 0
                && data.valid_entries@[i].0@[0] == '/',
    ensures
        r.wf(),
        r@ == spec_sound_slop(
            data.valid_entries@,
            spec_total(data.valid_entries@) + data.invalid_entries@.len(),
        ),
{
    proof {
        reveal_strlit("!version");
        reveal_strlit("!count");
    }
    let joined = data.joined_count();
    let ghost base = seq![
        ("!version"@, SlopValueView::Str(spec_digits(SOUND_REF_VERSION as nat))),
        ("!count"@, SlopValueView::Str(spec_digits(joined as nat))),
    ];
    let mut slop = Slop::new();
    let v = u64_string(SOUND_REF_VERSION as u64);
    slop.insert_str(crate::static_file_data::version_key(), v.as_str());
    proof {
        assert(slop@ =~= seq![
            ("!version"@, SlopValueView::Str(spec_digits(SOUND_REF_VERSION as nat))),
        ]);
    }
    let c = u64_string(joined as u64);
    slop.insert_str(crate::static_file_data::count_key(), c.as_str());
    proof {
        assert("!version"@.len() != "!count"@.len());
        lemma_index_of(seq![
            ("!version"@, SlopValueView::Str(spec_digits(SOUND_REF_VERSION as nat))),
        ], "!count"@);
        assert(slop@ =~= base);
    }
    let n = data.valid_entries.len();
    let mut i: usize = 0;
    proof {
        assert(slop@ =~= base + Seq::new(
            0,
            |q: int|
                (
                    data.valid_entries@[q].0@,
                    SlopValueView::List(
                        Seq::new(
                            data.valid_entries@[q].1@.len(),
                            |j: int| data.valid_entries@[q].1@[j].path@,
                        ),
                    ),
                ),
        ));
    }
    while i < n
        invariant
            data.wf(),
            n == data.valid_entries@.len(),
            i <= n,
            forall|q: int|
                0 <= q < n ==> (#[trigger] data.valid_entries@[q]).0@.len() > 0
                    && data.valid_entries@[q].0@[0] == '/',
            slop.wf(),
            slop@.len() == i + 2,
            slop@[0].0 == "!version"@,
            slop@[1].0 == "!count"@,
            forall|q: int|
                2 <= q < slop@.len() ==> (#[trigger] slop@[q]).0 == data.valid_entries@[q
                    - 2].0@,
            slop@ == base + Seq::new(
                i as nat,
                |q: int|
                    (
                        data.valid_entries@[q].0@,
                        SlopValueView::List(
                            Seq::new(
                                data.valid_entries@[q].1@.len(),
                                |j: int| data.valid_entries@[q].1@[j].path@,
                            ),
                        ),
                    ),
            ),
        decreases n - i,
    {
        proof {
            reveal_strlit("!version");
            reveal_strlit("!count");
        }
        let group = &data.valid_entries[i];
        let m = group.1.len();
        let mut sounds: Vec<String> = Vec::new();
        let mut j: usize = 0;
        while j < m
            invariant
                n == data.valid_entries@.len(),
                i < n,
                m == data.valid_entries@[i as int].1@.len(),
                j <= m,
                group.1@ == data.valid_entries@[i as int].1@,
                sounds@.len() == j,
                forall|q: int|
                    0 <= q < j ==> (#[trigger] sounds@[q])@ == data.valid_entries@[i as int].1@[
                        q
                    ].path@,
            decreases m - j,
        {
            sounds.push(group.1[j].path.clone());
            j = j + 1;
        }
        let ghost before = slop@;
        proof {
            let key = data.valid_entries@[i as int].0@;
            assert(key[0] == '/');
            assert("!version"@[0] == '!');
            assert("!count"@[0] == '!');
            assert forall|q: int| 0 <= q < before.len() implies (#[trigger] before[q]).0
                != key by {
                if q >= 2 {
                    assert(before[q].0 == data.valid_entries@[q - 2].0@);
                    assert(data.valid_entries@[q - 2].0@ != data.valid_entries@[i as int].0@);
                } else if q == 0 {
                    assert(before[q].0 == "!version"@);
                } else {
                    assert(before[q].0 == "!count"@);
                }
            }
            lemma_index_of(before, key);
            if spec_index_of(before, key) >= 0 {
                assert(before[spec_index_of(before, key)].0 == key);
            }
        }
        slop.insert(group.0.as_str(), SlopValue::List(sounds));
        proof {
            assert(slop@ =~~= base + Seq::new(
                (i + 1) as nat,
                |q: int|
                    (
                        data.valid_entries@[q].0@,
                        SlopValueView::List(
                            Seq::new(
                                data.valid_entries@[q].1@.len(),
                                |j: int| data.valid_entries@[q].1@[j].path@,
                            ),
                        ),
                    ),
            ));
        }
        i = i + 1;
    }
    proof {
        assert(slop@ =~~= spec_sound_slop(
            data.valid_entries@,
            spec_total(data.valid_entries@) + data.invalid_entries@.len(),
        ));
    }
    slop
}

/// The grouped packaged names, as mathematics.
pub open spec fn sound_groups_view(d: Seq<(String, Vec<SoundData>)>) -> Seq<
    (Seq<char>, Seq<Seq<char>>),
> {
    Seq::new(d.len(), |i: int| (d[i].0@, Seq::new(d[i].1@.len(), |j: int| d[i].1@[j].path@)))
}

/// The invalid side-table, as mathematics: each record's path key and the
/// path its reason carries (the same path).
pub open spec fn sound_invalids_view(d: Seq<(String, InvalidSound)>) -> Seq<
    (Seq<char>, Seq<char>),
> {
    Seq::new(d.len(), |i: int| (d[i].0@, d[i].1.path@))
}

/// One packaged name appended under its key: into the existing group, or
/// as a fresh group at the end.
pub open spec fn spec_group_append(
    groups: Seq<(Seq<char>, Seq<Seq<char>>)>,
    key: Seq<char>,
    name: Seq<char>,
) -> Seq<(Seq<char>, Seq<Seq<char>>)> {
    let i = spec_pair_index(groups, key);
    if i < 0 {
        groups.push((key, seq![name]))
    } else {
        groups.update(i, (key, groups[i].1.push(name)))
    }
}

/// One invalid path filed, replacing an earlier record under the same path.
pub open spec fn spec_invalid_file(
    invs: Seq<(Seq<char>, Seq<char>)>,
    path: Seq<char>,
) -> Seq<(Seq<char>, Seq<char>)> {
    let i = spec_pair_index(invs, path);
    if i < 0 {
        invs.push((path, path))
    } else {
        invs.update(i, (path, path))
    }
}

proof fn lemma_groups_view_index(s: Seq<(String, Vec<SoundData>)>, k: Seq<char>)
    ensures
        spec_pair_index(sound_groups_view(s), k) == spec_key_index(s, k),
    decreases s.len(),
{
    if s.len() > 0 {
        assert(sound_groups_view(s)[0].0 == s[0].0@);
        if s[0].0@ != k {
            lemma_groups_view_index(s.drop_first(), k);
            assert(sound_groups_view(s).drop_first() =~~= sound_groups_view(s.drop_first()));
        }
    }
}

proof fn lemma_invalids_view_index(s: Seq<(String, InvalidSound)>, k: Seq<char>)
    ensures
        spec_pair_index(sound_invalids_view(s), k) == spec_key_index(s, k),
    decreases s.len(),
{
    if s.len() > 0 {
        assert(sound_invalids_view(s)[0].0 == s[0].0@);
        if s[0].0@ != k {
            lemma_invalids_view_index(s.drop_first(), k);
            assert(sound_invalids_view(s).drop_first() =~~= sound_invalids_view(
                s.drop_first(),
            ));
        }
    }
}

/// Classifies one source file and records the outcome exactly: a `.wav`
/// file appends its packaged name under the parent's key, anything else is
/// filed as invalid under its own path.
pub fn register_item(
    data: &mut ScanData<SoundData, InvalidSound>,
    parent: &str,
    path: &str,
)
    requires
        old(data).wf(),
        spec_total(old(data).valid_entries@) < usize::MAX,
    ensures
        final(data).wf(),
        final(data).item_name == old(data).item_name,
        spec_total(final(data).valid_entries@) <= spec_total(old(data).valid_entries@) + 1,
        final(data).invalid_entries@.len() <= old(data).invalid_entries@.len() + 1,
        forall|q: int|
            0 <= q < final(data).valid_entries@.len() ==> (q < old(data).valid_entries@.len() && (
            #[trigger] final(data).valid_entries@[q]).0 == old(data).valid_entries@[q].0) || final(data).valid_entries@[q].0@ == spec_key_name(parent@),
        ({
            let name = spec_file_name(path@);
            if spec_extension(name) == Some("wav"@) {
                sound_groups_view(final(data).valid_entries@) == spec_group_append(
                    sound_groups_view(old(data).valid_entries@),
                    spec_key_name(parent@),
                    spec_converted(name),
                ) && final(data).invalid_entries@ == old(data).invalid_entries@ && spec_total(
                    final(data).valid_entries@,
                ) == spec_total(old(data).valid_entries@) + 1
            } else {
                final(data).valid_entries@ == old(data).valid_entries@ && sound_invalids_view(
                    final(data).invalid_entries@,
                ) == spec_invalid_file(
                    sound_invalids_view(old(data).invalid_entries@),
                    path@,
                )
            }
        }),
{
    let ghost gv0 = sound_groups_view(old(data).valid_entries@);
    let ghost iv0 = sound_invalids_view(old(data).invalid_entries@);
    let key = paths::path_buf_to_key_name(parent);
    match SoundData::open(path) {
        Ok(d) => {
            proof {
                lemma_groups_view_index(data.valid_entries@, key@);
                crate::gen::scan_data::lemma_key_index(data.valid_entries@, key@);
            }
            let ghost packaged = d.path@;
            data.push_valid(key.as_str(), d);
            proof {
                let idx = spec_key_index(old(data).valid_entries@, key@);
                if idx < 0 {
                    assert(sound_groups_view(data.valid_entries@) =~~= gv0.push(
                        (key@, seq![packaged]),
                    ));
                } else {
                    assert(sound_groups_view(data.valid_entries@) =~~= gv0.update(
                        idx,
                        (key@, gv0[idx].1.push(packaged)),
                    ));
                }
            }
        },
        Err(b) => {
            proof {
                lemma_invalids_view_index(data.invalid_entries@, path@);
                crate::gen::scan_data::lemma_key_index(data.invalid_entries@, path@);
            }
            data.push_invalid(path, b);
            proof {
                let idx = spec_key_index(old(data).invalid_entries@, path@);
                if idx < 0 {
                    assert(sound_invalids_view(data.invalid_entries@) =~~= iv0.push(
                        (path@, path@),
                    ));
                } else {
                    assert(sound_invalids_view(data.invalid_entries@) =~~= iv0.update(
                        idx,
                        (path@, path@),
                    ));
                }
            }
        },
    }
}

/// A fault that aborts reference generation outright.
#[derive(Debug)]
pub enum SoundGenError {
    /// A walked file does not lie under the scanned root.
    NotUnderRoot(String),
}

/// The builder's walk from entry `i` on, over accumulated groups and
/// invalid records: directories and `desktop.ini` are passed over, the
/// first file outside the root is the error, a `.wav` file appends its
/// packaged name under its parent's key, and anything else is filed as
/// invalid under its own path.
pub open spec fn spec_sound_gen_from(
    es: Seq<(Seq<char>, bool)>,
    dir: Seq<char>,
    i: int,
    groups: Seq<(Seq<char>, Seq<Seq<char>>)>,
    invs: Seq<(Seq<char>, Seq<char>)>,
) -> Result<(Seq<(Seq<char>, Seq<Seq<char>>)>, Seq<(Seq<char>, Seq<char>)>), Seq<char>>
    decreases es.len() - i,
{
    if i < 0 || i >= es.len() {
        Ok((groups, invs))
    } else {
        let e = es[i];
        if e.1 || spec_file_name(e.0) == "desktop.ini"@ {
            spec_sound_gen_from(es, dir, i + 1, groups, invs)
        } else {
            match spec_strip_prefix(spec_parent(e.0), dir) {
                None => Err(e.0),
                Some(p) => {
                    let name = spec_file_name(e.0);
                    if spec_extension(name) == Some("wav"@) {
                        spec_sound_gen_from(
                            es,
                            dir,
                            i + 1,
                            spec_group_append(groups, spec_key_name(p), spec_converted(name)),
                            invs,
                        )
                    } else {
                        spec_sound_gen_from(es, dir, i + 1, groups, spec_invalid_file(invs, e.0))
                    }
                },
            }
        }
    }
}

/// Builds the sound reference from the files walked under `sound_dir`.
/// The outcome is exactly the builder's walk: on success the collected
/// groups and the invalid side-table equal the walk's fold over the
/// entries, and the snapshot is their serialization; the error carries the
/// first walked file that does not lie under the root, and comes exactly
/// when there is one.
pub fn generate_sound_ref(entries: &Vec<FsEntry>, sound_dir: &str) -> (r: Result<
    (ScanData<SoundData, InvalidSound>, Slop),
    SoundGenError,
>)
    ensures
        match r {
            Ok((data, slop)) => data.wf() && slop.wf() && slop@ == spec_sound_slop(
                data.valid_entries@,
                spec_total(data.valid_entries@) + data.invalid_entries@.len(),
            ) && spec_sound_gen_from(
                entries_view(entries@),
                sound_dir@,
                0,
                Seq::empty(),
                Seq::empty(),
            ) == Ok::<(Seq<(Seq<char>, Seq<Seq<char>>)>, Seq<(Seq<char>, Seq<char>)>), Seq<char>>(
                (
                    sound_groups_view(data.valid_entries@),
                    sound_invalids_view(data.invalid_entries@),
                ),
            ),
            Err(SoundGenError::NotUnderRoot(p)) => spec_sound_gen_from(
                entries_view(entries@),
                sound_dir@,
                0,
                Seq::empty(),
                Seq::empty(),
            ) == Err::<
                (Seq<(Seq<char>, Seq<Seq<char>>)>, Seq<(Seq<char>, Seq<char>)>),
                Seq<char>,
            >(p@),
        },
{
    let ghost ev = entries_view(entries@);
    let mut data: ScanData<SoundData, InvalidSound> = ScanData::new("sounds");
    let n = entries.len();
    let mut i: usize = 0;
    proof {
        assert(sound_groups_view(data.valid_entries@) =~= Seq::<
            (Seq<char>, Seq<Seq<char>>),
        >::empty());
        assert(sound_invalids_view(data.invalid_entries@) =~= Seq::<
            (Seq<char>, Seq<char>),
        >::empty());
    }
    while i < n
        invariant
            n == entries@.len(),
            ev == entries_view(entries@),
            i <= n,
            data.wf(),
            spec_total(data.valid_entries@) + data.invalid_entries@.len() <= i,
            forall|q: int|
                0 <= q < data.valid_entries@.len() ==> (
                #[trigger] data.valid_entries@[q]).0@.len() > 0 && data.valid_entries@[q].0@[0]
                    == '/',
            spec_sound_gen_from(ev, sound_dir@, 0, Seq::empty(), Seq::empty())
                == spec_sound_gen_from(
                ev,
                sound_dir@,
                i as int,
                sound_groups_view(data.valid_entries@),
                sound_invalids_view(data.invalid_entries@),
            ),
        decreases n - i,
    {
        let e = &entries[i];
        proof {
            assert(ev[i as int] == (entries@[i as int].path@, entries@[i as int].is_dir));
        }
        if !e.is_dir {
            let name = paths::file_name(e.path.as_str());
            if !str_eq(name.as_str(), "desktop.ini") {
                match paths::sanitize_path(e.path.as_str(), sound_dir) {
                    None => {
                        proof {
                            assert(spec_sound_gen_from(
                                ev,
                                sound_dir@,
                                i as int,
                                sound_groups_view(data.valid_entries@),
                                sound_invalids_view(data.invalid_entries@),
                            ) == Err::<
                                (
                                    Seq<(Seq<char>, Seq<Seq<char>>)>,
                                    Seq<(Seq<char>, Seq<char>)>,
                                ),
                                Seq<char>,
                            >(e.path@));
                        }
                        return Err(SoundGenError::NotUnderRoot(e.path.clone()));
                    },
                    Some(parent) => {
                        register_item(&mut data, parent.as_str(), e.path.as_str());
                        proof {
                            paths::lemma_key_name_starts_slash(parent@);
                        }
                    },
                }
            }
        }
        i = i + 1;
    }
    let slop = generate_slop(&data);
    Ok((data, slop))
}

} // verus!
