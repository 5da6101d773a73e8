//! Path handling over plain strings: paths are `/`- or `\`-separated
//! strings, and every function here is total on them.

use vstd::prelude::*;

use crate::text::str_eq;

verus! {

/// One entry of a walked directory tree, as the surrounding program hands
/// it to the library: its full path and whether it is a directory.
pub struct FsEntry {
    pub path: String,
    pub is_dir: bool,
}

/// The views of walked entries: path text and directory flag.
pub open spec fn entries_view(s: Seq<FsEntry>) -> Seq<(Seq<char>, bool)> {
    Seq::new(s.len(), |i: int| (s[i].path@, s[i].is_dir))
}

/// A walked entry the tree processors consider: not a directory, and not
/// the OS artifact file.
pub open spec fn spec_is_candidate(e: (Seq<char>, bool)) -> bool {
    !e.1 && spec_file_name(e.0) != "desktop.ini"@
}

/// How many entries from `i` on are considered.
pub open spec fn spec_candidate_count(es: Seq<(Seq<char>, bool)>, i: int) -> int
    decreases es.len() - i,
{
    if i < 0 || i >= es.len() {
        0int
    } else {
        (if spec_is_candidate(es[i]) {
            1int
        } else {
            0int
        }) + spec_candidate_count(es, i + 1)
    }
}

pub proof fn lemma_candidate_count_bound(es: Seq<(Seq<char>, bool)>, i: int)
    requires
        0 <= i <= es.len(),
    ensures
        0 <= spec_candidate_count(es, i) <= es.len() - i,
    decreases es.len() - i,
{
    if i < es.len() {
        lemma_candidate_count_bound(es, i + 1);
    }
}

/// A path separator: forward slash, or backslash on trees packed under
/// Windows.
pub open spec fn is_sep(c: char) -> bool {
    c == '/' || c == '\\'
}

/// Index of the last separator in `s`, or `-1`.
pub open spec fn spec_last_sep(s: Seq<char>) -> int
    decreases s.len(),
{
    if s.len() == 0 {
        -1
    } else if is_sep(s.last()) {
        s.len() - 1
    } else {
        spec_last_sep(s.drop_last())
    }
}

pub proof fn lemma_last_sep(s: Seq<char>)
    ensures
        -1 <= spec_last_sep(s) < s.len(),
        spec_last_sep(s) >= 0 ==> is_sep(s[spec_last_sep(s)]),
        forall|j: int| spec_last_sep(s) < j < s.len() ==> !is_sep(#[trigger] s[j]),
    decreases s.len(),
{
    if s.len() > 0 && !is_sep(s.last()) {
        let t = s.drop_last();
        lemma_last_sep(t);
        assert forall|j: int| spec_last_sep(s) < j < s.len() implies !is_sep(#[trigger] s[j]) by {
            if j < t.len() {
                assert(t[j] == s[j]);
                assert(!is_sep(t[j]));
            } else {
                assert(j == s.len() - 1);
            }
        }
    }
}

/// Everything after the last separator; the whole string when there is
/// none.
pub open spec fn spec_file_name(s: Seq<char>) -> Seq<char> {
    s.subrange(spec_last_sep(s) + 1, s.len() as int)
}

/// Everything before the last separator; empty when there is none.
pub open spec fn spec_parent(s: Seq<char>) -> Seq<char> {
    if spec_last_sep(s) < 0 {
        Seq::empty()
    } else {
        s.subrange(0, spec_last_sep(s))
    }
}

fn last_sep_index(path: &str) -> (r: (bool, usize))
    ensures
        r.0 ==> r.1 as int == spec_last_sep(path@),
        !r.0 ==> spec_last_sep(path@) < 0,
{
    let n = path.unicode_len();
    let mut j: usize = n;
    while j > 0
        invariant
            n == path@.len(),
            j <= n,
            forall|x: int| j <= x < n ==> !is_sep(#[trigger] path@[x]),
        decreases j,
    {
        let c = path.get_char(j - 1);
        if c == '/' || c == '\\' {
            proof {
                lemma_last_sep(path@);
                let ls = spec_last_sep(path@);
                if ls < j - 1 {
                    assert(is_sep(path@[j - 1]));
                }
                if ls > j - 1 {
                    assert(!is_sep(path@[ls]));
                }
            }
            return (true, j - 1);
        }
        j = j - 1;
    }
    proof {
        lemma_last_sep(path@);
        let ls = spec_last_sep(path@);
        if ls >= 0 {
            assert(!is_sep(path@[ls]));
        }
    }
    (false, 0)
}

/// The file name at the end of the path: what follows the last separator.
pub fn file_name(path: &str) -> (r: String)
    ensures
        r@ == spec_file_name(path@),
{
    let n = path.unicode_len();
    proof {
        lemma_last_sep(path@);
    }
    let (found, j) = last_sep_index(path);
    if found {
        path.substring_char(j + 1, n).to_owned()
    } else {
        proof {
            assert(path@.subrange(spec_last_sep(path@) + 1, n as int) =~= path@);
        }
        path.to_owned()
    }
}

/// The parent directory of the path: everything before the last separator.
pub fn parent_dir(path: &str) -> (r: String)
    ensures
        r@ == spec_parent(path@),
{
    proof {
        lemma_last_sep(path@);
    }
    let (found, j) = last_sep_index(path);
    if found {
        path.substring_char(0, j).to_owned()
    } else {
        proof {
            assert(spec_parent(path@) =~= Seq::<char>::empty());
        }
        String::new()
    }
}

/// The extension of a file name, in the manner of `Path::extension`: what
/// follows the last dot; none when there is no dot, or when the name opens
/// with its only dot.
pub open spec fn spec_extension(name: Seq<char>) -> Option<Seq<char>> {
    let d = crate::text::spec_rfind(name, '.');
    if d <= 0 {
        None
    } else {
        Some(name.subrange(d + 1, name.len() as int))
    }
}

/// `base` joined with the child `suffix`: a separator is added unless
/// `base` is empty or already ends in one.
pub open spec fn spec_push(base: Seq<char>, suffix: Seq<char>) -> Seq<char> {
    if base.len() == 0 {
        suffix
    } else if is_sep(base.last()) {
        base + suffix
    } else {
        base + seq!['/'] + suffix
    }
}

/// Returns the child `suffix` of the path `base`.
pub fn push(base: &str, suffix: &str) -> (r: String)
    ensures
        r@ == spec_push(base@, suffix@),
{
    let n = base.unicode_len();
    if n == 0 {
        return suffix.to_owned();
    }
    let last = base.get_char(n - 1);
    let mut out = base.to_owned();
    if !(last == '/' || last == '\\') {
        out.append("/");
        proof {
            reveal_strlit("/");
            assert(base@ + "/"@ =~= base@ + seq!['/']);
        }
    }
    out.append(suffix);
    proof {
        if !is_sep(base@.last()) {
            assert(base@ + seq!['/'] + suffix@ =~= (base@ + seq!['/']) + suffix@);
        }
    }
    out
}

/// `path` with `base` removed from its front: empty when they are equal,
/// the remainder after the separator when `base` (given without a trailing
/// separator) is a proper prefix, and nothing otherwise.
pub open spec fn spec_strip_prefix(path: Seq<char>, base: Seq<char>) -> Option<Seq<char>> {
    if path == base {
        Some(Seq::empty())
    } else if path.len() > base.len() && path.subrange(0, base.len() as int) == base && is_sep(
        path[base.len() as int],
    ) {
        Some(path.subrange(base.len() as int + 1, path.len() as int))
    } else {
        None
    }
}

/// `path` with the leading `base` removed, as [`spec_strip_prefix`] says.
pub fn strip_prefix(path: &str, base: &str) -> (r: Option<String>)
    ensures
        match r {
            Some(s) => spec_strip_prefix(path@, base@) == Some(s@),
            None => spec_strip_prefix(path@, base@) is None,
        },
{
    let pn = path.unicode_len();
    let bn = base.unicode_len();
    if str_eq(path, base) {
        return Some(String::new());
    }
    if pn > bn {
        let head = path.substring_char(0, bn);
        let c = path.get_char(bn);
        if str_eq(head, base) && (c == '/' || c == '\\') {
            return Some(path.substring_char(bn + 1, pn).to_owned());
        }
    }
    None
}

/// Prepares a file path for use as a snapshot key: drops the file name and
/// strips the base directory, leaving the parent directory relative to the
/// base. `None` when the file does not lie under `base`.
pub fn sanitize_path(path: &str, base: &str) -> (r: Option<String>)
    ensures
        match r {
            Some(s) => spec_strip_prefix(spec_parent(path@), base@) == Some(s@),
            None => spec_strip_prefix(spec_parent(path@), base@) is None,
        },
{
    let n = path.unicode_len();
    proof {
        lemma_last_sep(path@);
    }
    let (found, j) = last_sep_index(path);
    let parent = if found {
        path.substring_char(0, j).to_owned()
    } else {
        proof {
            assert(spec_parent(path@) =~= Seq::<char>::empty());
        }
        String::new()
    };
    let bn = base.unicode_len();
    let pn = parent.unicode_len();
    if str_eq(parent.as_str(), base) {
        proof {
            assert(spec_strip_prefix(spec_parent(path@), base@) == Some(Seq::<char>::empty()));
        }
        let r = String::new();
        return Some(r);
    }
    if pn > bn {
        let head = parent.as_str().substring_char(0, bn);
        let c = parent.as_str().get_char(bn);
        if str_eq(head, base) && (c == '/' || c == '\\') {
            let rest = parent.as_str().substring_char(bn + 1, pn).to_owned();
            return Some(rest);
        }
    }
    None
}

/// A file path as a snapshot key: a leading `/`, then the path with every
/// backslash turned into a forward slash.
pub open spec fn spec_key_name(path: Seq<char>) -> Seq<char> {
    seq!['/'] + Seq::new(path.len(), |i: int| if path[i] == '\\' {
        '/'
    } else {
        path[i]
    })
}

pub fn path_buf_to_key_name(path: &str) -> (r: String)
    ensures
        r@ == spec_key_name(path@),
{
    proof {
        reveal_strlit("/");
    }
    let n = path.unicode_len();
    let mut out = String::new();
    out.append("/");
    let mut i: usize = 0;
    while i < n
        invariant
            n == path@.len(),
            i <= n,
            out@ == seq!['/'] + Seq::new(i as nat, |q: int| if path@[q] == '\\' {
                '/'
            } else {
                path@[q]
            }),
        decreases n - i,
    {
        proof {
            reveal_strlit("/");
        }
        let c = path.get_char(i);
        if c == '\\' {
            out.append("/");
        } else {
            let piece = path.substring_char(i, i + 1);
            out.append(piece);
        }
        proof {
            assert(out@ =~= seq!['/'] + Seq::new(
                (i + 1) as nat,
                |q: int| if path@[q] == '\\' {
                    '/'
                } else {
                    path@[q]
                },
            ));
        }
        i = i + 1;
    }
    proof {
        assert(seq!['/'] + Seq::new(n as nat, |q: int| if path@[q] == '\\' {
            '/'
        } else {
            path@[q]
        }) =~= spec_key_name(path@));
    }
    out
}

/// Every key this function builds opens with `/`, so it can never collide
/// with a reserved `!`-key.
pub proof fn lemma_key_name_starts_slash(path: Seq<char>)
    ensures
        spec_key_name(path).len() > 0,
        spec_key_name(path)[0] == '/',
{
}

} // verus!
