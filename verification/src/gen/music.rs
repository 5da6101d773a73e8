//! The music reference builder: song IDs lifted from source file names.
//! A name yields an ID when it holds a run of at least two digits followed,
//! anywhere later, by `.wav`; the leftmost such run is taken whole.

use vstd::prelude::*;

use crate::paths;
use crate::paths::{FsEntry, entries_view, spec_file_name};
use crate::text::{
    is_digit_char, is_digit, spec_digits, spec_digits_val, u64_string, parse_u64, str_eq,
};

verus! {

/// `.wav` stands in `s` at position `j`.
pub open spec fn spec_wav_at(s: Seq<char>, j: int) -> bool {
    0 <= j && j + 4 <= s.len() && s.subrange(j, j + 4) == ".wav"@
}

/// `.wav` stands somewhere at or after `j`.
pub open spec fn spec_wav_from(s: Seq<char>, j: int) -> bool {
    exists|x: int| j <= x && spec_wav_at(s, x)
}

/// A song-name match begins at `i`: two digits, and `.wav` somewhere
/// after them.
pub open spec fn spec_match_at(s: Seq<char>, i: int) -> bool {
    0 <= i && i + 2 <= s.len() && is_digit_char(s[i]) && is_digit_char(s[i + 1]) && spec_wav_from(
        s,
        i + 2,
    )
}

/// The leftmost match start at or after `i`, or `-1`.
pub open spec fn spec_match_start(s: Seq<char>, i: int) -> int
    decreases s.len() - i,
{
    if i < 0 || i + 2 > s.len() {
        -1
    } else if spec_match_at(s, i) {
        i
    } else {
        spec_match_start(s, i + 1)
    }
}

/// End of the digit run that starts at `i`.
pub open spec fn spec_run_end(s: Seq<char>, i: int) -> int
    decreases s.len() - i,
{
    if i < 0 || i >= s.len() {
        s.len() as int
    } else if !is_digit_char(s[i]) {
        i
    } else {
        spec_run_end(s, i + 1)
    }
}

pub proof fn lemma_run_end(s: Seq<char>, i: int)
    requires
        0 <= i <= s.len(),
    ensures
        i <= spec_run_end(s, i) <= s.len(),
        forall|x: int| i <= x < spec_run_end(s, i) ==> is_digit_char(#[trigger] s[x]),
        spec_run_end(s, i) < s.len() ==> !is_digit_char(s[spec_run_end(s, i)]),
    decreases s.len() - i,
{
    if i < s.len() && is_digit_char(s[i]) {
        lemma_run_end(s, i + 1);
    }
}

/// Wherever the search reports a match start, a match does begin there.
pub proof fn lemma_match_start_at(s: Seq<char>, i: int)
    requires
        0 <= i,
    ensures
        spec_match_start(s, i) >= 0 ==> spec_match_at(s, spec_match_start(s, i)),
    decreases s.len() - i,
{
    if i + 2 <= s.len() && !spec_match_at(s, i) {
        lemma_match_start_at(s, i + 1);
    }
}

/// The digits captured from a song file name: the whole digit run at the
/// leftmost match.
pub open spec fn spec_music_capture(s: Seq<char>) -> Option<Seq<char>> {
    let st = spec_match_start(s, 0);
    if st < 0 {
        None
    } else {
        Some(s.subrange(st, spec_run_end(s, st)))
    }
}

/// Position of the last `.wav` occurrence; the flag is false when there is
/// none.
fn wav_limit(name: &str) -> (r: (bool, usize))
    ensures
        r.0 ==> spec_wav_at(name@, r.1 as int) && (forall|x: int|
            r.1 < x ==> !spec_wav_at(name@, x)),
        !r.0 ==> forall|x: int| !spec_wav_at(name@, x),
{
    let n = name.unicode_len();
    if n < 4 {
        return (false, 0);
    }
    let mut j: usize = n - 3;
    while j > 0
        invariant
            n == name@.len(),
            4 <= n,
            j <= n - 3,
            forall|x: int| j <= x ==> !spec_wav_at(name@, x),
        decreases j,
    {
        let p = j - 1;
        let piece = name.substring_char(p, p + 4);
        if str_eq(piece, ".wav") {
            return (true, p);
        }
        j = j - 1;
    }
    (false, 0)
}

/// The captured digits of a song file name, if any.
pub fn music_capture(name: &str) -> (r: Option<String>)
    ensures
        match r {
            Some(c) => spec_music_capture(name@) == Some(c@),
            None => spec_music_capture(name@) is None,
        },
{
    let n = name.unicode_len();
    let (has_wav, wl) = wav_limit(name);
    let mut i: usize = 0;
    while n >= 2 && i <= n - 2
        invariant
            n == name@.len(),
            i <= n,
            spec_match_start(name@, 0) == spec_match_start(name@, i as int),
            has_wav ==> spec_wav_at(name@, wl as int) && (forall|x: int|
                wl < x ==> !spec_wav_at(name@, x)),
            !has_wav ==> forall|x: int| !spec_wav_at(name@, x),
        decreases n - i,
    {
        let c0 = name.get_char(i);
        let c1 = name.get_char(i + 1);
        let ok = is_digit(c0) && is_digit(c1) && has_wav && wl >= i + 2;
        proof {
            if spec_wav_from(name@, i as int + 2) {
                let x = choose|x: int| i as int + 2 <= x && spec_wav_at(name@, x);
                assert(spec_wav_at(name@, x));
                if !has_wav {
                    assert(false);
                }
                if x > wl as int {
                    assert(!spec_wav_at(name@, x));
                }
                assert(wl as int >= i as int + 2);
            }
            if has_wav && wl as int >= i as int + 2 {
                assert(spec_wav_from(name@, i as int + 2));
            }
            assert(ok == spec_match_at(name@, i as int));
        }
        if ok {
            let mut e: usize = i;
            while e < n && is_digit(name.get_char(e))
                invariant
                    n == name@.len(),
                    i <= e <= n,
                    spec_run_end(name@, i as int) == spec_run_end(name@, e as int),
                decreases n - e,
            {
                e = e + 1;
            }
            proof {
                assert(spec_run_end(name@, i as int) == e as int);
            }
            let cap = name.substring_char(i, e).to_owned();
            return Some(cap);
        }
        i = i + 1;
    }
    proof {
        assert(spec_match_start(name@, i as int) == -1);
    }
    None
}

/// A fault that aborts music reference generation.
#[derive(Debug)]
pub enum MusicRefError {
    /// A song ID too large for the counters; holds the file name.
    IdOverflow(String),
}

/// One line of the music reference.
pub open spec fn spec_music_line(id: int) -> Seq<char> {
    "Music_"@ + spec_digits(id as nat) + seq!['\n']
}

/// The text of the music reference for the walked entries from `i` on:
/// directories and non-matching names are skipped; a matching name whose
/// ID does not fit is the error.
pub open spec fn spec_music_text_from(es: Seq<(Seq<char>, bool)>, i: int) -> Result<
    Seq<char>,
    Seq<char>,
>
    decreases es.len() - i,
{
    if i < 0 || i >= es.len() {
        Ok(Seq::empty())
    } else if es[i].1 {
        spec_music_text_from(es, i + 1)
    } else {
        let name = spec_file_name(es[i].0);
        match spec_music_capture(name) {
            None => spec_music_text_from(es, i + 1),
            Some(cap) => if spec_digits_val(cap) > u64::MAX {
                Err(name)
            } else {
                match spec_music_text_from(es, i + 1) {
                    Ok(t) => Ok(spec_music_line(spec_digits_val(cap)) + t),
                    Err(e) => Err(e),
                }
            },
        }
    }
}

/// Prepends already rendered lines to an outcome.
pub open spec fn spec_music_append(acc: Seq<char>, r: Result<Seq<char>, Seq<char>>) -> Result<
    Seq<char>,
    Seq<char>,
> {
    match r {
        Ok(t) => Ok(acc + t),
        Err(e) => Err(e),
    }
}

/// Builds the music reference text from the walked entries: one
/// `Music_<id>` line per matching file name, in walk order.
pub fn generate_music_ref(entries: &Vec<FsEntry>) -> (r: Result<String, MusicRefError>)
    ensures
        match r {
            Ok(t) => spec_music_text_from(entries_view(entries@), 0) == Ok::<Seq<char>, Seq<char>>(
                t@,
            ),
            Err(MusicRefError::IdOverflow(nm)) => spec_music_text_from(entries_view(entries@), 0)
                == Err::<Seq<char>, Seq<char>>(nm@),
        },
{
    let ghost ev = entries_view(entries@);
    let n = entries.len();
    let mut out = String::new();
    let mut i: usize = 0;
    proof {
        assert(out@ + Seq::<char>::empty() =~= out@);
    }
    while i < n
        invariant
            n == entries@.len(),
            ev == entries_view(entries@),
            i <= n,
            spec_music_text_from(ev, 0) == spec_music_append(
                out@,
                spec_music_text_from(ev, i as int),
            ),
        decreases n - i,
    {
        let ghost pre = out@;
        let e = &entries[i];
        proof {
            assert(ev[i as int] == (entries@[i as int].path@, entries@[i as int].is_dir));
        }
        if !e.is_dir {
            let name = paths::file_name(e.path.as_str());
            match music_capture(name.as_str()) {
                None => {},
                Some(cap) => {
                    proof {
                        reveal_strlit("Music_");
                        reveal_strlit("\n");
                    }
                    match parse_u64(cap.as_str()) {
                        None => {
                            proof {
                                lemma_match_start_at(name@, 0);
                                let st = spec_match_start(name@, 0);
                                lemma_run_end(name@, st);
                                assert forall|x: int| 0 <= x < cap@.len() implies is_digit_char(
                                    #[trigger] cap@[x],
                                ) by {
                                    assert(cap@[x] == name@[st + x]);
                                }
                                assert(cap@.len() >= 2);
                            }
                            return Err(MusicRefError::IdOverflow(name));
                        },
                        Some(id) => {
                            out.append("Music_");
                            let ds = u64_string(id);
                            out.append(ds.as_str());
                            out.append("\n");
                            proof {
                                assert(out@ =~= pre + spec_music_line(id as int));
                                match spec_music_text_from(ev, i as int + 1) {
                                    Ok(t) => {
                                        assert(pre + (spec_music_line(id as int) + t) =~= (pre
                                            + spec_music_line(id as int)) + t);
                                    },
                                    Err(_) => {},
                                }
                            }
                        },
                    }
                },
            }
        }
        i = i + 1;
    }
    proof {
        assert(out@ + Seq::<char>::empty() =~= out@);
    }
    Ok(out)
}

} // verus!
