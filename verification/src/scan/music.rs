//! The music scan: each candidate song must carry an accepted extension
//! and stand, extension stripped, in the flat music reference.

use vstd::prelude::*;

use crate::paths;
use crate::paths::{FsEntry, entries_view, spec_extension, spec_file_name};
use crate::scanner::{ItemStatus, Scanner};
use crate::text::{
    split_lines, spec_split_lines, spec_dedup, dedup_strings, strs_view, spec_contains_str,
    vec_contains_str, rfind_char, lemma_rfind, str_eq,
};

verus! {

/// The possible kinds of invalid songs.
pub enum InvalidMusic {
    /// The stripped name is not in the reference; holds the path.
    BadName(String),
    /// The extension is not an accepted sound format; holds the path.
    BadExtension(String),
}

/// The mathematical form of an [`InvalidMusic`].
pub enum InvalidMusicView {
    BadName(Seq<char>),
    BadExtension(Seq<char>),
}

impl View for InvalidMusic {
    type V = InvalidMusicView;

    open spec fn view(&self) -> InvalidMusicView {
        match self {
            InvalidMusic::BadName(p) => InvalidMusicView::BadName(p@),
            InvalidMusic::BadExtension(p) => InvalidMusicView::BadExtension(p@),
        }
    }
}

impl InvalidMusic {
    /// The report line for this finding.
    pub open spec fn spec_message(self) -> Seq<char> {
        match self@ {
            InvalidMusicView::BadName(p) => p + "\t: Name not in the reference."@,
            InvalidMusicView::BadExtension(p) => p
                + "\t: Invalid file format. Accepted: mp3, ogg, wav"@,
        }
    }

    /// Renders the report line.
    pub fn message(&self) -> (r: String)
        ensures
            r@ == self.spec_message(),
    {
        match self {
            InvalidMusic::BadName(p) => {
                let mut out = p.clone();
                out.append("\t: Name not in the reference.");
                out
            },
            InvalidMusic::BadExtension(p) => {
                let mut out = p.clone();
                out.append("\t: Invalid file format. Accepted: mp3, ogg, wav");
                out
            },
        }
    }
}

/// Opens the flat music reference text into its set of names: its lines,
/// each kept once.
pub fn open_music_ref(text: &str) -> (r: Vec<String>)
    ensures
        strs_view(r@) == spec_dedup(spec_split_lines(text@)),
{
    let lines = split_lines(text);
    proof {
        assert(strs_view(lines@) =~= Seq::new(lines@.len(), |i: int| lines@[i]@));
    }
    dedup_strings(&lines)
}

/// The validation rule for one candidate song file: an accepted extension,
/// and the stripped name present verbatim in the reference.
pub open spec fn spec_validate_song(path: Seq<char>, refs: Seq<Seq<char>>) -> ItemStatus<
    InvalidMusicView,
> {
    let name = spec_file_name(path);
    match spec_extension(name) {
        None => ItemStatus::Invalid(InvalidMusicView::BadExtension(path)),
        Some(e) => if e != "mp3"@ && e != "ogg"@ && e != "wav"@ {
            ItemStatus::Invalid(InvalidMusicView::BadExtension(path))
        } else if spec_contains_str(refs, name.subrange(0, name.len() - e.len() - 1)) {
            ItemStatus::Valid
        } else {
            ItemStatus::Invalid(InvalidMusicView::BadName(path))
        },
    }
}

/// Classifies one candidate song.
pub fn validate_song(path: &str, refs: &Vec<String>) -> (r: ItemStatus<InvalidMusic>)
    ensures
        r@ == spec_validate_song(path@, strs_view(refs@)),
{
    let name = paths::file_name(path);
    let n = name.unicode_len();
    proof {
        lemma_rfind(name@, '.');
    }
    let (found, d) = rfind_char(name.as_str(), '.');
    if !found || d == 0 {
        return ItemStatus::Invalid(InvalidMusic::BadExtension(path.to_owned()));
    }
    let ext = name.as_str().substring_char(d + 1, n);
    if !(str_eq(ext, "mp3") || str_eq(ext, "ogg") || str_eq(ext, "wav")) {
        return ItemStatus::Invalid(InvalidMusic::BadExtension(path.to_owned()));
    }
    let stem = name.as_str().substring_char(0, d);
    proof {
        assert(name@.subrange(0, d as int) =~= name@.subrange(
            0,
            name@.len() - (n - d - 1) - 1,
        ));
    }
    if vec_contains_str(refs, stem) {
        ItemStatus::Valid
    } else {
        ItemStatus::Invalid(InvalidMusic::BadName(path.to_owned()))
    }
}

/// Classification of one walked entry: directories and `desktop.ini` are
/// ignored, everything else is validated as a song.
pub open spec fn spec_music_status(e: (Seq<char>, bool), refs: Seq<Seq<char>>) -> ItemStatus<
    InvalidMusicView,
> {
    if e.1 || spec_file_name(e.0) == "desktop.ini"@ {
        ItemStatus::Ignored
    } else {
        spec_validate_song(e.0, refs)
    }
}

/// How many entries classify as valid.
pub open spec fn spec_music_valid_count(es: Seq<(Seq<char>, bool)>, refs: Seq<Seq<char>>) -> int
    decreases es.len(),
{
    if es.len() == 0 {
        0int
    } else {
        spec_music_valid_count(es.drop_last(), refs) + if spec_music_status(es.last(), refs)
            is Valid {
            1int
        } else {
            0int
        }
    }
}

/// The invalid findings, in walk order.
pub open spec fn spec_music_invalids(es: Seq<(Seq<char>, bool)>, refs: Seq<Seq<char>>) -> Seq<
    InvalidMusicView,
>
    decreases es.len(),
{
    if es.len() == 0 {
        Seq::empty()
    } else {
        spec_music_invalids(es.drop_last(), refs) + (match spec_music_status(es.last(), refs) {
            ItemStatus::Invalid(b) => seq![b],
            _ => Seq::empty(),
        })
    }
}

/// Scans the walked entries against the reference. The resulting counts
/// and findings are exactly what the classification rule says, entry by
/// entry.
pub fn scan_music(entries: &Vec<FsEntry>, refs: &Vec<String>) -> (r: Scanner<InvalidMusic>)
    requires
        entries@.len() < u32::MAX,
    ensures
        r.item_name@ == "songs"@,
        r.valid_count == spec_music_valid_count(entries_view(entries@), strs_view(refs@)),
        Seq::new(r.invalid_items@.len(), |q: int| r.invalid_items@[q]@) == spec_music_invalids(
            entries_view(entries@),
            strs_view(refs@),
        ),
{
    let ghost ev = entries_view(entries@);
    let ghost rv = strs_view(refs@);
    let mut scanner: Scanner<InvalidMusic> = Scanner::new("songs");
    let n = entries.len();
    let mut i: usize = 0;
    proof {
        assert(ev.subrange(0, 0) =~= Seq::<(Seq<char>, bool)>::empty());
        assert(Seq::new(scanner.invalid_items@.len(), |q: int| scanner.invalid_items@[q]@)
            =~= Seq::<InvalidMusicView>::empty());
    }
    while i < n
        invariant
            n == entries@.len(),
            n < u32::MAX,
            ev == entries_view(entries@),
            rv == strs_view(refs@),
            i <= n,
            scanner.item_name@ == "songs"@,
            scanner.valid_count <= i,
            scanner.valid_count == spec_music_valid_count(ev.subrange(0, i as int), rv),
            Seq::new(scanner.invalid_items@.len(), |q: int| scanner.invalid_items@[q]@)
                == spec_music_invalids(ev.subrange(0, i as int), rv),
        decreases n - i,
    {
        let ghost pre = scanner.invalid_items@;
        let e = &entries[i];
        proof {
            assert(ev[i as int] == (entries@[i as int].path@, entries@[i as int].is_dir));
        }
        let status: ItemStatus<InvalidMusic> = if e.is_dir {
            ItemStatus::Ignored
        } else {
            let name = paths::file_name(e.path.as_str());
            if str_eq(name.as_str(), "desktop.ini") {
                ItemStatus::Ignored
            } else {
                validate_song(e.path.as_str(), refs)
            }
        };
        proof {
            assert(status@ == spec_music_status(ev[i as int], rv));
        }
        scanner.register(status);
        proof {
            let taken = ev.subrange(0, i as int + 1);
            assert(taken.drop_last() =~= ev.subrange(0, i as int));
            assert(taken.last() == ev[i as int]);
            match status@ {
                ItemStatus::Invalid(b) => {
                    assert(Seq::new(
                        scanner.invalid_items@.len(),
                        |q: int| scanner.invalid_items@[q]@,
                    ) =~= spec_music_invalids(ev.subrange(0, i as int), rv) + seq![b]);
                },
                _ => {},
            }
        }
        i = i + 1;
    }
    proof {
        assert(ev.subrange(0, n as int) =~= ev);
    }
    scanner
}

} // verus!
