//! Character classes, whitespace trimming, single-character search and
//! decimal digit reading/printing over `&str` and `String`.

use vstd::prelude::*;

verus! {

/// Whitespace as far as the line grammar is concerned: space, tab and
/// carriage return (newlines never occur inside a single line).
pub open spec fn is_space_char(c: char) -> bool {
    c == ' ' || c == '\t' || c == '\r'
}

pub fn is_space(c: char) -> (r: bool)
    ensures
        r == is_space_char(c),
{
    c == ' ' || c == '\t' || c == '\r'
}

pub open spec fn is_digit_char(c: char) -> bool {
    48 <= c as int && c as int <= 57
}

pub fn is_digit(c: char) -> (r: bool)
    ensures
        r == is_digit_char(c),
{
    let u = c as u32;
    48 <= u && u <= 57
}

pub open spec fn all_spaces(s: Seq<char>) -> bool {
    forall|i: int| 0 <= i < s.len() ==> is_space_char(s[i])
}

pub open spec fn all_digits(s: Seq<char>) -> bool {
    forall|i: int| 0 <= i < s.len() ==> is_digit_char(s[i])
}

/// The sequence with every leading space character removed.
pub open spec fn spec_trim_start(s: Seq<char>) -> Seq<char>
    decreases s.len(),
{
    if s.len() == 0 {
        s
    } else if is_space_char(s[0]) {
        spec_trim_start(s.drop_first())
    } else {
        s
    }
}

/// The sequence with every trailing space character removed.
pub open spec fn spec_trim_end(s: Seq<char>) -> Seq<char>
    decreases s.len(),
{
    if s.len() == 0 {
        s
    } else if is_space_char(s.last()) {
        spec_trim_end(s.drop_last())
    } else {
        s
    }
}

pub proof fn lemma_trim_start_at(s: Seq<char>, i: int)
    requires
        0 <= i <= s.len(),
        forall|j: int| 0 <= j < i ==> is_space_char(s[j]),
        i == s.len() || !is_space_char(s[i]),
    ensures
        spec_trim_start(s) == s.subrange(i, s.len() as int),
    decreases i,
{
    if i == 0 {
        assert(s.subrange(0, s.len() as int) =~= s);
    } else {
        let t = s.drop_first();
        assert(forall|j: int| 0 <= j < i - 1 ==> is_space_char(#[trigger] t[j]));
        lemma_trim_start_at(t, i - 1);
        assert(t.subrange(i - 1, t.len() as int) =~= s.subrange(i, s.len() as int));
    }
}

pub proof fn lemma_trim_end_at(s: Seq<char>, j: int)
    requires
        0 <= j <= s.len(),
        forall|k: int| j <= k < s.len() ==> is_space_char(s[k]),
        j == 0 || !is_space_char(s[j - 1]),
    ensures
        spec_trim_end(s) == s.subrange(0, j),
    decreases s.len() - j,
{
    if j == s.len() {
        assert(s.subrange(0, s.len() as int) =~= s);
    } else {
        let t = s.drop_last();
        assert(forall|k: int| j <= k < t.len() ==> is_space_char(#[trigger] t[k]));
        lemma_trim_end_at(t, j);
        assert(t.subrange(0, j) =~= s.subrange(0, j));
    }
}

/// `s` with leading spaces removed, as a fresh `String`.
pub fn trim_start(s: &str) -> (r: String)
    ensures
        r@ == spec_trim_start(s@),
{
    let n = s.unicode_len();
    let mut i: usize = 0;
    while i < n && is_space(s.get_char(i))
        invariant
            n == s@.len(),
            i <= n,
            forall|j: int| 0 <= j < i ==> is_space_char(s@[j]),
        decreases n - i,
    {
        i = i + 1;
    }
    proof {
        lemma_trim_start_at(s@, i as int);
    }
    s.substring_char(i, n).to_owned()
}

/// `s` with trailing spaces removed, as a fresh `String`.
pub fn trim_end(s: &str) -> (r: String)
    ensures
        r@ == spec_trim_end(s@),
{
    let n = s.unicode_len();
    let mut j: usize = n;
    while j > 0 && is_space(s.get_char(j - 1))
        invariant
            n == s@.len(),
            j <= n,
            forall|k: int| j <= k < n ==> is_space_char(s@[k]),
        decreases j,
    {
        j = j - 1;
    }
    proof {
        lemma_trim_end_at(s@, j as int);
    }
    s.substring_char(0, j).to_owned()
}

/// Index of the first occurrence of `c` in `s` at or after `i`;
/// `s.len()` if there is none.
pub open spec fn spec_find_from(s: Seq<char>, i: int, c: char) -> int
    decreases s.len() - i,
{
    if i < 0 || i >= s.len() {
        s.len() as int
    } else if s[i] == c {
        i
    } else {
        spec_find_from(s, i + 1, c)
    }
}

pub proof fn lemma_find_from(s: Seq<char>, i: int, c: char)
    requires
        0 <= i <= s.len(),
    ensures
        i <= spec_find_from(s, i, c) <= s.len(),
        spec_find_from(s, i, c) < s.len() ==> s[spec_find_from(s, i, c)] == c,
        forall|j: int| i <= j < spec_find_from(s, i, c) ==> s[j] != c,
    decreases s.len() - i,
{
    if i < s.len() && s[i] != c {
        lemma_find_from(s, i + 1, c);
    }
}

/// Index of the first occurrence of `c1` or `c2` in `s` at or after `i`;
/// `s.len()` if there is none.
pub open spec fn spec_find_either(s: Seq<char>, i: int, c1: char, c2: char) -> int
    decreases s.len() - i,
{
    if i < 0 || i >= s.len() {
        s.len() as int
    } else if s[i] == c1 || s[i] == c2 {
        i
    } else {
        spec_find_either(s, i + 1, c1, c2)
    }
}

pub proof fn lemma_find_either(s: Seq<char>, i: int, c1: char, c2: char)
    requires
        0 <= i <= s.len(),
    ensures
        i <= spec_find_either(s, i, c1, c2) <= s.len(),
        spec_find_either(s, i, c1, c2) < s.len() ==> s[spec_find_either(s, i, c1, c2)] == c1
            || s[spec_find_either(s, i, c1, c2)] == c2,
        forall|j: int|
            i <= j < spec_find_either(s, i, c1, c2) ==> s[j] != c1 && s[j] != c2,
    decreases s.len() - i,
{
    if i < s.len() && s[i] != c1 && s[i] != c2 {
        lemma_find_either(s, i + 1, c1, c2);
    }
}

/// First position holding `c1` or `c2`, or the length if neither occurs.
pub fn find_either(s: &str, c1: char, c2: char) -> (r: usize)
    ensures
        r as int == spec_find_either(s@, 0, c1, c2),
{
    let n = s.unicode_len();
    let mut i: usize = 0;
    while i < n
        invariant
            n == s@.len(),
            i <= n,
            spec_find_either(s@, 0, c1, c2) == spec_find_either(s@, i as int, c1, c2),
        decreases n - i,
    {
        let c = s.get_char(i);
        if c == c1 || c == c2 {
            return i;
        }
        i = i + 1;
    }
    i
}

/// If every character before `j` differs from both `c1` and `c2` and the
/// character at `j` (if any) is one of them, the search stops exactly at `j`.
pub proof fn lemma_find_either_exact(s: Seq<char>, c1: char, c2: char, j: int)
    requires
        0 <= j <= s.len(),
        forall|x: int| 0 <= x < j ==> s[x] != c1 && s[x] != c2,
        j < s.len() ==> s[j] == c1 || s[j] == c2,
    ensures
        spec_find_either(s, 0, c1, c2) == if j < s.len() { j } else { s.len() as int },
{
    lemma_find_either(s, 0, c1, c2);
    let r = spec_find_either(s, 0, c1, c2);
    if j < s.len() {
        if r < j {
            assert(s[r] != c1 && s[r] != c2);
        }
        if r > j {
            assert(s[j] != c1 && s[j] != c2);
        }
    } else {
        if r < s.len() {
            assert(s[r] != c1 && s[r] != c2);
        }
    }
}

/// Same stopping rule for the single-character search.
pub proof fn lemma_find_from_exact(s: Seq<char>, c: char, j: int)
    requires
        0 <= j <= s.len(),
        forall|x: int| 0 <= x < j ==> s[x] != c,
        j < s.len() ==> s[j] == c,
    ensures
        spec_find_from(s, 0, c) == if j < s.len() { j } else { s.len() as int },
{
    lemma_find_from(s, 0, c);
    let r = spec_find_from(s, 0, c);
    if j < s.len() {
        if r < j {
            assert(s[r] != c);
        }
        if r > j {
            assert(s[j] != c);
        }
    } else {
        if r < s.len() {
            assert(s[r] != c);
        }
    }
}

/// First position holding `c`, or the length if it does not occur.
pub fn find_char(s: &str, c: char) -> (r: usize)
    ensures
        r as int == spec_find_from(s@, 0, c),
{
    let n = s.unicode_len();
    let mut i: usize = 0;
    while i < n
        invariant
            n == s@.len(),
            i <= n,
            spec_find_from(s@, 0, c) == spec_find_from(s@, i as int, c),
        decreases n - i,
    {
        if s.get_char(i) == c {
            return i;
        }
        i = i + 1;
    }
    i
}

/// A line with a trailing carriage return stripped, as `str::lines` does
/// before each newline.
pub open spec fn strip_cr(l: Seq<char>) -> Seq<char> {
    if l.len() > 0 && l.last() == '\r' {
        l.drop_last()
    } else {
        l
    }
}

/// The lines of `t`, in the manner of `str::lines`: segments between `\n`
/// characters, each with one trailing `\r` removed, and no final empty
/// segment when the text ends with `\n`.
pub open spec fn spec_split_lines(t: Seq<char>) -> Seq<Seq<char>>
    decreases t.len(),
{
    if t.len() == 0 {
        Seq::empty()
    } else {
        let j0 = spec_find_from(t, 0, '\n');
        let j = if j0 < 0 { 0 } else { j0 };
        if j >= t.len() {
            seq![t]
        } else {
            seq![strip_cr(t.subrange(0, j))] + spec_split_lines(t.subrange(j + 1, t.len() as int))
        }
    }
}

/// Splits text into lines as `str::lines` does.
pub fn split_lines(text: &str) -> (r: Vec<String>)
    ensures
        Seq::new(r@.len(), |i: int| r@[i]@) == spec_split_lines(text@),
    decreases text@.len(),
{
    let n = text.unicode_len();
    let mut r: Vec<String> = Vec::new();
    if n == 0 {
        proof {
            assert(Seq::new(r@.len(), |i: int| r@[i]@) =~= spec_split_lines(text@));
        }
        return r;
    }
    proof {
        lemma_find_from(text@, 0, '\n');
    }
    let j = find_char(text, '\n');
    if j == n {
        r.push(text.to_owned());
        proof {
            assert(Seq::new(r@.len(), |i: int| r@[i]@) =~= spec_split_lines(text@));
        }
        return r;
    }
    let line = if j > 0 && text.get_char(j - 1) == '\r' {
        text.substring_char(0, j - 1).to_owned()
    } else {
        text.substring_char(0, j).to_owned()
    };
    proof {
        if j > 0 && text@[j as int - 1] == '\r' {
            assert(text@.subrange(0, j as int).drop_last() =~= text@.subrange(0, j as int - 1));
        }
        assert(line@ == strip_cr(text@.subrange(0, j as int)));
    }
    let rest = text.substring_char(j + 1, n);
    let mut rr = split_lines(rest);
    let mut out: Vec<String> = Vec::new();
    out.push(line);
    out.append(&mut rr);
    proof {
        assert(Seq::new(out@.len(), |i: int| out@[i]@) =~= spec_split_lines(text@));
    }
    out
}

/// The views of a sequence of strings.
pub open spec fn strs_view(s: Seq<String>) -> Seq<Seq<char>> {
    Seq::new(s.len(), |i: int| s[i]@)
}

/// `k` reads as one of the strings of `rs`.
pub open spec fn spec_contains_str(rs: Seq<Seq<char>>, k: Seq<char>) -> bool {
    exists|i: int| 0 <= i < rs.len() && rs[i] == k
}

/// Membership of `k` among the strings of `v`, by text.
pub fn vec_contains_str(v: &Vec<String>, k: &str) -> (r: bool)
    ensures
        r == spec_contains_str(strs_view(v@), k@),
{
    let n = v.len();
    let mut i: usize = 0;
    while i < n
        invariant
            n == v@.len(),
            i <= n,
            forall|j: int| 0 <= j < i ==> (#[trigger] v@[j])@ != k@,
        decreases n - i,
    {
        if str_eq(v[i].as_str(), k) {
            assert(strs_view(v@)[i as int] == k@);
            return true;
        }
        i = i + 1;
    }
    proof {
        assert forall|j: int| 0 <= j < strs_view(v@).len() implies strs_view(v@)[j] != k@ by {
            assert(strs_view(v@)[j] == v@[j]@);
        }
    }
    false
}

/// `p` is a prefix of `s`.
pub open spec fn spec_starts_with(s: Seq<char>, p: Seq<char>) -> bool {
    s.len() >= p.len() && s.subrange(0, p.len() as int) == p
}

/// `p` is a suffix of `s`.
pub open spec fn spec_ends_with(s: Seq<char>, p: Seq<char>) -> bool {
    s.len() >= p.len() && s.subrange(s.len() - p.len(), s.len() as int) == p
}

pub fn str_starts_with(s: &str, p: &str) -> (r: bool)
    ensures
        r == spec_starts_with(s@, p@),
{
    let n = s.unicode_len();
    let pn = p.unicode_len();
    if n < pn {
        return false;
    }
    let head = s.substring_char(0, pn);
    str_eq(head, p)
}

pub fn str_ends_with(s: &str, p: &str) -> (r: bool)
    ensures
        r == spec_ends_with(s@, p@),
{
    let n = s.unicode_len();
    let pn = p.unicode_len();
    if n < pn {
        return false;
    }
    let tail = s.substring_char(n - pn, n);
    str_eq(tail, p)
}

/// Position of the first pair whose key is `k`, or `-1`.
pub open spec fn spec_pair_index<T>(s: Seq<(Seq<char>, T)>, k: Seq<char>) -> int
    decreases s.len(),
{
    if s.len() == 0 {
        -1
    } else if s[0].0 == k {
        0
    } else {
        let r = spec_pair_index(s.drop_first(), k);
        if r < 0 {
            -1
        } else {
            r + 1
        }
    }
}

pub proof fn lemma_pair_index<T>(s: Seq<(Seq<char>, T)>, k: Seq<char>)
    ensures
        -1 <= spec_pair_index(s, k) < s.len(),
        spec_pair_index(s, k) >= 0 ==> s[spec_pair_index(s, k)].0 == k,
        forall|j: int| 0 <= j < spec_pair_index(s, k) ==> (#[trigger] s[j]).0 != k,
        spec_pair_index(s, k) < 0 ==> forall|j: int|
            0 <= j < s.len() ==> (#[trigger] s[j]).0 != k,
    decreases s.len(),
{
    if s.len() > 0 && s[0].0 != k {
        let t = s.drop_first();
        lemma_pair_index(t, k);
        assert forall|j: int| 0 <= j < spec_pair_index(s, k) implies (#[trigger] s[j]).0 != k by {
            if j > 0 {
                assert(s[j] == t[j - 1]);
            }
        }
        if spec_pair_index(s, k) < 0 {
            assert forall|j: int| 0 <= j < s.len() implies (#[trigger] s[j]).0 != k by {
                if j > 0 {
                    assert(s[j] == t[j - 1]);
                }
            }
        }
    }
}

/// The strings of `ls` with later repetitions removed, first occurrences
/// kept in order.
pub open spec fn spec_dedup(ls: Seq<Seq<char>>) -> Seq<Seq<char>>
    decreases ls.len(),
{
    if ls.len() == 0 {
        Seq::empty()
    } else {
        let rest = spec_dedup(ls.drop_last());
        if spec_contains_str(rest, ls.last()) {
            rest
        } else {
            rest.push(ls.last())
        }
    }
}

/// Removes repeated strings, keeping each first occurrence; the result
/// holds a string exactly when the input does.
pub fn dedup_strings(v: &Vec<String>) -> (r: Vec<String>)
    ensures
        strs_view(r@) == spec_dedup(strs_view(v@)),
{
    let n = v.len();
    let mut out: Vec<String> = Vec::new();
    let mut i: usize = 0;
    proof {
        assert(strs_view(v@).subrange(0, 0) =~= Seq::<Seq<char>>::empty());
        assert(strs_view(out@) =~= Seq::<Seq<char>>::empty());
    }
    while i < n
        invariant
            n == v@.len(),
            i <= n,
            strs_view(out@) == spec_dedup(strs_view(v@).subrange(0, i as int)),
        decreases n - i,
    {
        let ghost pre = strs_view(out@);
        let present = vec_contains_str(&out, v[i].as_str());
        if !present {
            out.push(v[i].clone());
            proof {
                assert(strs_view(out@) =~= pre.push(v@[i as int]@));
            }
        }
        proof {
            let whole = strs_view(v@);
            let taken = whole.subrange(0, i as int + 1);
            assert(taken.drop_last() =~= whole.subrange(0, i as int));
            assert(taken.last() == v@[i as int]@);
        }
        i = i + 1;
    }
    proof {
        assert(strs_view(v@).subrange(0, n as int) =~= strs_view(v@));
    }
    out
}

/// A fresh vector holding the same strings.
pub fn clone_strings(v: &Vec<String>) -> (r: Vec<String>)
    ensures
        r@ == v@,
{
    let n = v.len();
    let mut out: Vec<String> = Vec::new();
    let mut i: usize = 0;
    while i < n
        invariant
            n == v@.len(),
            i <= n,
            out@.len() == i,
            forall|j: int| 0 <= j < i ==> out@[j] == v@[j],
        decreases n - i,
    {
        out.push(v[i].clone());
        i = i + 1;
    }
    proof {
        assert(out@ =~= v@);
    }
    out
}

/// Character-for-character equality of two string slices.
pub fn str_eq(a: &str, b: &str) -> (r: bool)
    ensures
        r == (a@ == b@),
{
    let n = a.unicode_len();
    if n != b.unicode_len() {
        return false;
    }
    let mut i: usize = 0;
    while i < n
        invariant
            n == a@.len(),
            n == b@.len(),
            i <= n,
            forall|j: int| 0 <= j < i ==> a@[j] == b@[j],
        decreases n - i,
    {
        if a.get_char(i) != b.get_char(i) {
            return false;
        }
        i = i + 1;
    }
    proof {
        assert(a@ =~= b@);
    }
    true
}

/// Index of the last occurrence of `c` in `s`, or `-1`.
pub open spec fn spec_rfind(s: Seq<char>, c: char) -> int
    decreases s.len(),
{
    if s.len() == 0 {
        -1
    } else if s.last() == c {
        s.len() - 1
    } else {
        spec_rfind(s.drop_last(), c)
    }
}

pub proof fn lemma_rfind(s: Seq<char>, c: char)
    ensures
        -1 <= spec_rfind(s, c) < s.len(),
        spec_rfind(s, c) >= 0 ==> s[spec_rfind(s, c)] == c,
        forall|j: int| spec_rfind(s, c) < j < s.len() ==> s[j] != c,
    decreases s.len(),
{
    if s.len() > 0 && s.last() != c {
        let t = s.drop_last();
        lemma_rfind(t, c);
        assert forall|j: int| spec_rfind(s, c) < j < s.len() implies s[j] != c by {
            if j < t.len() {
                assert(t[j] == s[j]);
                assert(t[j] != c);
            } else {
                assert(j == s.len() - 1);
            }
        }
    }
}

/// If the character at `j` is `c` and nothing after it is, the backward
/// search stops exactly at `j`.
pub proof fn lemma_rfind_exact(s: Seq<char>, c: char, j: int)
    requires
        0 <= j < s.len(),
        s[j] == c,
        forall|x: int| j < x < s.len() ==> s[x] != c,
    ensures
        spec_rfind(s, c) == j,
{
    lemma_rfind(s, c);
    let r = spec_rfind(s, c);
    if r < j {
        assert(s[j] != c);
    }
    if r > j {
        assert(s[r] != c);
    }
}

/// Index of the last occurrence of `c`; the flag is false when it does not
/// occur.
pub fn rfind_char(s: &str, c: char) -> (r: (bool, usize))
    ensures
        r.0 ==> r.1 as int == spec_rfind(s@, c),
        !r.0 ==> spec_rfind(s@, c) < 0,
{
    let n = s.unicode_len();
    proof {
        lemma_rfind(s@, c);
    }
    let mut j: usize = n;
    while j > 0
        invariant
            n == s@.len(),
            j <= n,
            forall|x: int| j <= x < n ==> s@[x] != c,
        decreases j,
    {
        if s.get_char(j - 1) == c {
            proof {
                lemma_rfind_exact(s@, c, j as int - 1);
            }
            return (true, j - 1);
        }
        j = j - 1;
    }
    proof {
        let r = spec_rfind(s@, c);
        if r >= 0 {
            assert(s@[r] != c);
        }
    }
    (false, 0)
}

/// The decimal digit `d` as a character.
pub open spec fn digit_char(d: int) -> char {
    if d == 0 { '0' }
    else if d == 1 { '1' }
    else if d == 2 { '2' }
    else if d == 3 { '3' }
    else if d == 4 { '4' }
    else if d == 5 { '5' }
    else if d == 6 { '6' }
    else if d == 7 { '7' }
    else if d == 8 { '8' }
    else { '9' }
}

/// Decimal digits of `n`, most significant first, with no sign and no
/// leading zero (except for `n == 0` itself).
pub open spec fn spec_digits(n: nat) -> Seq<char>
    decreases n,
{
    if n < 10 {
        seq![digit_char(n as int)]
    } else {
        spec_digits(n / 10).push(digit_char((n % 10) as int))
    }
}

fn digit_str(d: u64) -> (r: &'static str)
    requires
        d < 10,
    ensures
        r@ =~= seq![digit_char(d as int)],
{
    proof {
        reveal_strlit("0");
        reveal_strlit("1");
        reveal_strlit("2");
        reveal_strlit("3");
        reveal_strlit("4");
        reveal_strlit("5");
        reveal_strlit("6");
        reveal_strlit("7");
        reveal_strlit("8");
        reveal_strlit("9");
    }
    match d {
        0 => "0",
        1 => "1",
        2 => "2",
        3 => "3",
        4 => "4",
        5 => "5",
        6 => "6",
        7 => "7",
        8 => "8",
        _ => "9",
    }
}

/// `n` printed in decimal.
pub fn u64_string(n: u64) -> (r: String)
    ensures
        r@ == spec_digits(n as nat),
    decreases n,
{
    if n < 10 {
        digit_str(n).to_owned()
    } else {
        let mut s = u64_string(n / 10);
        s.append(digit_str(n % 10));
        s
    }
}

/// The value of a digit string, most significant digit first.
pub open spec fn spec_digits_val(s: Seq<char>) -> int
    decreases s.len(),
{
    if s.len() == 0 {
        0
    } else {
        spec_digits_val(s.drop_last()) * 10 + (s.last() as int - 48)
    }
}

pub proof fn lemma_digits_val_nonneg(s: Seq<char>)
    requires
        all_digits(s),
    ensures
        spec_digits_val(s) >= 0,
    decreases s.len(),
{
    if s.len() > 0 {
        let t = s.drop_last();
        assert(forall|i: int| 0 <= i < t.len() ==> is_digit_char(#[trigger] t[i]));
        lemma_digits_val_nonneg(t);
    }
}

/// Reads an unsigned decimal number: digits only, at least one, value at
/// most `u64::MAX`. Anything else gives `None`.
pub fn parse_u64(s: &str) -> (r: Option<u64>)
    ensures
        r is Some <==> s@.len() > 0 && all_digits(s@) && spec_digits_val(s@) <= u64::MAX,
        r matches Some(v) ==> v == spec_digits_val(s@),
{
    let n = s.unicode_len();
    if n == 0 {
        return None;
    }
    let mut acc: u64 = 0;
    let mut i: usize = 0;
    while i < n
        invariant
            n == s@.len(),
            i <= n,
            all_digits(s@.subrange(0, i as int)),
            acc == spec_digits_val(s@.subrange(0, i as int)),
        decreases n - i,
    {
        let c = s.get_char(i);
        if !is_digit(c) {
            proof {
                assert(!all_digits(s@));
            }
            return None;
        }
        let d: u64 = (c as u32 as u64) - 48;
        proof {
            lemma_digits_val_nonneg(s@.subrange(0, i as int));
            assert(s@.subrange(0, i as int + 1).drop_last() =~= s@.subrange(0, i as int));
            assert(s@.subrange(0, i as int + 1).last() == s@[i as int]);
        }
        let widened: Option<u64> = match acc.checked_mul(10) {
            Some(m) => m.checked_add(d),
            None => None,
        };
        match widened {
            Some(v) => {
                acc = v;
            },
            None => {
                proof {
                    if all_digits(s@) {
                        lemma_digits_val_grows(s@, i as int + 1);
                    }
                }
                return None;
            },
        }
        i = i + 1;
    }
    proof {
        assert(s@.subrange(0, n as int) =~= s@);
    }
    Some(acc)
}

/// If some prefix of a digit string already exceeds `u64::MAX`, the whole
/// string does too.
proof fn lemma_digits_val_grows(s: Seq<char>, i: int)
    requires
        0 <= i <= s.len(),
        all_digits(s),
        spec_digits_val(s.subrange(0, i)) > u64::MAX,
    ensures
        spec_digits_val(s) > u64::MAX,
    decreases s.len() - i,
{
    if i < s.len() {
        let p = s.subrange(0, i);
        let q = s.subrange(0, i + 1);
        assert(q.drop_last() =~= p);
        assert(is_digit_char(q.last()));
        lemma_digits_val_nonneg(p);
        assert(spec_digits_val(q) == spec_digits_val(p) * 10 + (q.last() as int - 48));
        assert(spec_digits_val(q) > u64::MAX);
        lemma_digits_val_grows(s, i + 1);
    } else {
        assert(s.subrange(0, i) =~= s);
    }
}

/// Printing a value and reading it back gives the value again.
pub proof fn lemma_digits_roundtrip(n: nat)
    ensures
        all_digits(spec_digits(n)),
        spec_digits(n).len() > 0,
        spec_digits_val(spec_digits(n)) == n,
    decreases n,
{
    if n < 10 {
        assert(spec_digits(n) =~= seq![digit_char(n as int)]);
        assert(spec_digits_val(seq![digit_char(n as int)].drop_last()) == 0);
    } else {
        lemma_digits_roundtrip(n / 10);
        let s = spec_digits(n);
        assert(s.drop_last() =~= spec_digits(n / 10));
        assert(forall|i: int| 0 <= i < s.len() ==> is_digit_char(#[trigger] s[i]));
    }
}

} // verus!
