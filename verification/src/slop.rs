//! The reference snapshot codec: an ordered key-value store whose values are
//! scalars or lists of strings, with a line-oriented text form.
//!
//! Grammar of the text form, line by line:
//! - blank lines and lines whose first non-space character is `#` are ignored;
//! - `key=value` is a scalar entry (the value is the rest of the line verbatim);
//! - `key{` opens a list that runs to the next line which is `}` (each may
//!   carry trailing whitespace); every line strictly between, with leading
//!   whitespace removed, is one element;
//! - any other line is a fatal parse error carrying its 1-based line number.

use vstd::prelude::*;
use vstd::pervasive::VecAdditionalExecFns;

use crate::text::{
    spec_trim_start, spec_trim_end, spec_find_either, spec_find_from, spec_split_lines,
    strip_cr, all_spaces, is_space_char,
    trim_start, trim_end, find_either, is_space, str_eq,
    lemma_find_either, lemma_find_from, lemma_find_either_exact, lemma_find_from_exact,
    lemma_trim_start_at,
};

verus! {

/// A value held under one key: a scalar string or a list of strings.
pub enum SlopValue {
    Str(String),
    List(Vec<String>),
}

/// The mathematical form of a [`SlopValue`].
#[verifier::ext_equal]
pub enum SlopValueView {
    Str(Seq<char>),
    List(Seq<Seq<char>>),
}

impl View for SlopValue {
    type V = SlopValueView;

    open spec fn view(&self) -> SlopValueView {
        match self {
            SlopValue::Str(s) => SlopValueView::Str(s@),
            SlopValue::List(v) => SlopValueView::List(Seq::new(v@.len(), |i: int| v@[i]@)),
        }
    }
}

/// An ordered association of keys to values; later inserts of an existing
/// key replace its value in place.
pub struct Slop {
    items: Vec<(String, SlopValue)>,
}

/// The mathematical form of the pair list held by a [`Slop`].
pub open spec fn pairs_view(items: Seq<(String, SlopValue)>) -> Seq<(Seq<char>, SlopValueView)> {
    Seq::new(items.len(), |i: int| (items[i].0@, items[i].1@))
}

impl View for Slop {
    type V = Seq<(Seq<char>, SlopValueView)>;

    closed spec fn view(&self) -> Seq<(Seq<char>, SlopValueView)> {
        pairs_view(self.items@)
    }
}

/// No key occurs twice.
pub open spec fn unique_keys(s: Seq<(Seq<char>, SlopValueView)>) -> bool {
    forall|i: int, j: int| 0 <= i < j < s.len() ==> (#[trigger] s[i]).0 != (#[trigger] s[j]).0
}

/// Position of the first pair whose key is `k`, or `-1`.
pub open spec fn spec_index_of(s: Seq<(Seq<char>, SlopValueView)>, k: Seq<char>) -> int
    decreases s.len(),
{
    if s.len() == 0 {
        -1
    } else if s[0].0 == k {
        0
    } else {
        let r = spec_index_of(s.drop_first(), k);
        if r < 0 {
            -1
        } else {
            r + 1
        }
    }
}

/// The value under `k`, if any.
pub open spec fn spec_get(s: Seq<(Seq<char>, SlopValueView)>, k: Seq<char>) -> Option<
    SlopValueView,
> {
    let i = spec_index_of(s, k);
    if i < 0 {
        None
    } else {
        Some(s[i].1)
    }
}

/// Replaces the value under `k` in place, or appends the pair.
pub open spec fn spec_insert(
    s: Seq<(Seq<char>, SlopValueView)>,
    k: Seq<char>,
    v: SlopValueView,
) -> Seq<(Seq<char>, SlopValueView)> {
    let i = spec_index_of(s, k);
    if i < 0 {
        s.push((k, v))
    } else {
        s.update(i, (k, v))
    }
}

/// Inserts the pairs of `ps` into `s`, first to last.
pub open spec fn spec_insert_all(
    s: Seq<(Seq<char>, SlopValueView)>,
    ps: Seq<(Seq<char>, SlopValueView)>,
) -> Seq<(Seq<char>, SlopValueView)>
    decreases ps.len(),
{
    if ps.len() == 0 {
        s
    } else {
        spec_insert_all(spec_insert(s, ps[0].0, ps[0].1), ps.drop_first())
    }
}

/// The key-to-value mapping that the pair list denotes.
pub open spec fn as_map(s: Seq<(Seq<char>, SlopValueView)>) -> Map<Seq<char>, SlopValueView> {
    Map::new(|k: Seq<char>| spec_index_of(s, k) >= 0, |k: Seq<char>| s[spec_index_of(s, k)].1)
}

pub proof fn lemma_index_of(s: Seq<(Seq<char>, SlopValueView)>, k: Seq<char>)
    ensures
        -1 <= spec_index_of(s, k) < s.len(),
        spec_index_of(s, k) >= 0 ==> s[spec_index_of(s, k)].0 == k,
        forall|j: int| 0 <= j < spec_index_of(s, k) ==> (#[trigger] s[j]).0 != k,
        spec_index_of(s, k) < 0 ==> forall|j: int|
            0 <= j < s.len() ==> (#[trigger] s[j]).0 != k,
    decreases s.len(),
{
    if s.len() > 0 && s[0].0 != k {
        let t = s.drop_first();
        lemma_index_of(t, k);
        assert forall|j: int| 0 <= j < spec_index_of(s, k) implies (#[trigger] s[j]).0 != k by {
            if j > 0 {
                assert(s[j] == t[j - 1]);
            }
        }
        if spec_index_of(s, k) < 0 {
            assert forall|j: int| 0 <= j < s.len() implies (#[trigger] s[j]).0 != k by {
                if j > 0 {
                    assert(s[j] == t[j - 1]);
                }
            }
        }
    }
}

/// Text of the element lines of a list block: four spaces of indent, the
/// element, a newline.
pub open spec fn spec_serialize_elems(es: Seq<Seq<char>>) -> Seq<char>
    decreases es.len(),
{
    if es.len() == 0 {
        Seq::empty()
    } else {
        seq![' ', ' ', ' ', ' '] + es[0] + seq!['\n'] + spec_serialize_elems(es.drop_first())
    }
}

/// Text of one entry: `key=value\n` for a scalar, `key{\n` followed by the
/// element lines and `}\n` for a list.
pub open spec fn spec_serialize_pair(k: Seq<char>, v: SlopValueView) -> Seq<char> {
    match v {
        SlopValueView::Str(s) => k + seq!['='] + s + seq!['\n'],
        SlopValueView::List(es) => k + seq!['{', '\n'] + spec_serialize_elems(es) + seq![
            '}',
            '\n',
        ],
    }
}

/// Text of a whole store, entries in their held order.
pub open spec fn spec_serialize(s: Seq<(Seq<char>, SlopValueView)>) -> Seq<char>
    decreases s.len(),
{
    if s.len() == 0 {
        Seq::empty()
    } else {
        spec_serialize_pair(s[0].0, s[0].1) + spec_serialize(s.drop_first())
    }
}

proof fn lemma_serialize_snoc(s: Seq<(Seq<char>, SlopValueView)>, p: (Seq<char>, SlopValueView))
    ensures
        spec_serialize(s.push(p)) == spec_serialize(s) + spec_serialize_pair(p.0, p.1),
    decreases s.len(),
{
    reveal_with_fuel(spec_serialize, 3);
    if s.len() == 0 {
        assert(s.push(p)[0] == p);
        assert(s.push(p).drop_first() =~= Seq::<(Seq<char>, SlopValueView)>::empty());
        assert(Seq::<char>::empty() + spec_serialize_pair(p.0, p.1) =~= spec_serialize_pair(
            p.0,
            p.1,
        ));
        assert(spec_serialize_pair(p.0, p.1) + Seq::<char>::empty() =~= spec_serialize_pair(
            p.0,
            p.1,
        ));
    } else {
        lemma_serialize_snoc(s.drop_first(), p);
        assert(s.push(p).drop_first() =~= s.drop_first().push(p));
        assert(s.push(p)[0] == s[0]);
        assert(spec_serialize_pair(s[0].0, s[0].1) + (spec_serialize(s.drop_first())
            + spec_serialize_pair(p.0, p.1)) =~= (spec_serialize_pair(s[0].0, s[0].1)
            + spec_serialize(s.drop_first())) + spec_serialize_pair(p.0, p.1));
    }
}

proof fn lemma_serialize_elems_snoc(es: Seq<Seq<char>>, e: Seq<char>)
    ensures
        spec_serialize_elems(es.push(e)) == spec_serialize_elems(es) + (seq![' ', ' ', ' ', ' ']
            + e + seq!['\n']),
    decreases es.len(),
{
    reveal_with_fuel(spec_serialize_elems, 3);
    if es.len() == 0 {
        assert(es.push(e)[0] == e);
        assert(es.push(e).drop_first() =~= Seq::<Seq<char>>::empty());
        assert(seq![' ', ' ', ' ', ' '] + e + seq!['\n'] + Seq::<char>::empty() =~= Seq::<
            char,
        >::empty() + (seq![' ', ' ', ' ', ' '] + e + seq!['\n']));
    } else {
        lemma_serialize_elems_snoc(es.drop_first(), e);
        assert(es.push(e).drop_first() =~= es.drop_first().push(e));
        assert(es.push(e)[0] == es[0]);
        let head = seq![' ', ' ', ' ', ' '] + es[0] + seq!['\n'];
        assert(head + (spec_serialize_elems(es.drop_first()) + (seq![' ', ' ', ' ', ' '] + e
            + seq!['\n'])) =~= (head + spec_serialize_elems(es.drop_first())) + (seq![
            ' ',
            ' ',
            ' ',
            ' ',
        ] + e + seq!['\n']));
    }
}

impl Slop {
    /// Renders the store in its text form.
    pub fn serialize(&self) -> (r: String)
        ensures
            r@ == spec_serialize(self@),
    {
        proof {
            reveal_strlit("=");
            reveal_strlit("\n");
            reveal_strlit("{\n");
            reveal_strlit("    ");
            reveal_strlit("}\n");
        }
        let mut out = String::new();
        let n = self.items.len();
        let mut i: usize = 0;
        proof {
            assert(self@.subrange(0, 0) =~= Seq::<(Seq<char>, SlopValueView)>::empty());
        }
        while i < n
            invariant
                n == self.items@.len(),
                i <= n,
                out@ == spec_serialize(self@.subrange(0, i as int)),
            decreases n - i,
        {
            proof {
                reveal_strlit("=");
                reveal_strlit("\n");
                reveal_strlit("{\n");
                reveal_strlit("    ");
                reveal_strlit("}\n");
            }
            let ghost pre = out@;
            let kv = &self.items[i];
            out.append(kv.0.as_str());
            match &kv.1 {
                SlopValue::Str(sv) => {
                    out.append("=");
                    out.append(sv.as_str());
                    out.append("\n");
                    proof {
                        assert(out@ =~= pre + spec_serialize_pair(
                            self@[i as int].0,
                            self@[i as int].1,
                        ));
                    }
                },
                SlopValue::List(list) => {
                    out.append("{\n");
                    let ghost es = match self@[i as int].1 {
                        SlopValueView::List(q) => q,
                        SlopValueView::Str(q) => Seq::empty(),
                    };
                    let m = list.len();
                    let mut x: usize = 0;
                    proof {
                        assert(es =~= Seq::new(list@.len(), |q: int| list@[q]@));
                        assert(spec_serialize_elems(es.subrange(0, 0)) =~= Seq::<char>::empty());
                        assert(out@ =~= pre + self@[i as int].0 + seq!['{', '\n']);
                    }
                    while x < m
                        invariant
                            m == list@.len(),
                            x <= m,
                            n == self.items@.len(),
                            i < n,
                            es == Seq::new(list@.len(), |q: int| list@[q]@),
                            out@ == pre + self@[i as int].0 + seq!['{', '\n']
                                + spec_serialize_elems(es.subrange(0, x as int)),
                        decreases m - x,
                    {
                        proof {
                            reveal_strlit("    ");
                            reveal_strlit("\n");
                        }
                        out.append("    ");
                        out.append(list[x].as_str());
                        out.append("\n");
                        proof {
                            lemma_serialize_elems_snoc(es.subrange(0, x as int), es[x as int]);
                            assert(es.subrange(0, x as int + 1) =~= es.subrange(
                                0,
                                x as int,
                            ).push(es[x as int]));
                            assert(out@ =~= pre + self@[i as int].0 + seq!['{', '\n']
                                + spec_serialize_elems(es.subrange(0, x as int + 1)));
                        }
                        x = x + 1;
                    }
                    out.append("}\n");
                    proof {
                        assert(es.subrange(0, m as int) =~= es);
                        assert(out@ =~= pre + spec_serialize_pair(
                            self@[i as int].0,
                            self@[i as int].1,
                        ));
                    }
                },
            }
            proof {
                lemma_serialize_snoc(self@.subrange(0, i as int), self@[i as int]);
                assert(self@.subrange(0, i as int + 1) =~= self@.subrange(0, i as int).push(
                    self@[i as int],
                ));
            }
            i = i + 1;
        }
        proof {
            assert(self@.subrange(0, n as int) =~= self@);
        }
        out
    }
}

/// A fatal grammar violation, carrying the 1-based number of the bad line.
#[derive(Debug, Clone, Copy, PartialEq, Eq, Structural)]
pub enum SlopError {
    MalformedLine(usize),
}

/// The views of a sequence of text lines.
pub open spec fn lines_view(lines: Seq<String>) -> Seq<Seq<char>> {
    Seq::new(lines.len(), |i: int| lines[i]@)
}

/// A scalar line `key=value`: the key is the longest prefix free of `=` and
/// `}`, and must be followed by `=`; the value is the rest, verbatim. Note
/// that this admits `{` inside a scalar key, one step wider than the keys
/// the snapshot builders ever emit.
pub open spec fn spec_parse_scalar(t: Seq<char>) -> Option<(Seq<char>, Seq<char>)> {
    let j = spec_find_either(t, 0, '=', '}');
    if j < t.len() && t[j] == '=' {
        Some((t.subrange(0, j), t.subrange(j + 1, t.len() as int)))
    } else {
        None
    }
}

/// A list-opening line `key{`, allowing trailing whitespace; the key may
/// not contain `=` or `}`. As with scalars, a `{` inside the key itself is
/// admitted (the opener is the last `{` on the line), one step wider than
/// any key the builders emit.
pub open spec fn spec_parse_list_start(raw: Seq<char>) -> Option<Seq<char>> {
    let t = spec_trim_end(raw);
    if t.len() > 0 && t.last() == '{' && spec_find_either(t.drop_last(), 0, '=', '}') == t.len()
        - 1 {
        Some(t.drop_last())
    } else {
        None
    }
}

/// A list-closing line: `}` with optional surrounding whitespace — an
/// indented `}` closes a block just as a flush one does.
pub open spec fn spec_is_end_line(l: Seq<char>) -> bool {
    let t = spec_trim_start(l);
    t.len() > 0 && t[0] == '}' && all_spaces(t.drop_first())
}

/// Index of the first list-closing line at or after `i`; the number of lines
/// if there is none.
pub open spec fn spec_find_end(lines: Seq<Seq<char>>, i: int) -> int
    decreases lines.len() - i,
{
    if i < 0 || i >= lines.len() {
        lines.len() as int
    } else if spec_is_end_line(lines[i]) {
        i
    } else {
        spec_find_end(lines, i + 1)
    }
}

/// The elements of a list block: the lines in `[lo, hi)`, each with leading
/// whitespace removed.
pub open spec fn spec_block_elems(lines: Seq<Seq<char>>, lo: int, hi: int) -> Seq<Seq<char>> {
    Seq::new(if hi >= lo { (hi - lo) as nat } else { 0 }, |j: int| spec_trim_start(lines[lo + j]))
}

/// The entries parsed from `lines` starting at line index `i`, in order of
/// appearance (duplicate keys are kept here; insertion resolves them), or
/// the 1-based number of the first malformed line.
pub open spec fn spec_parse_from(lines: Seq<Seq<char>>, i: int) -> Result<
    Seq<(Seq<char>, SlopValueView)>,
    int,
>
    decreases lines.len() - i,
{
    if i < 0 || i >= lines.len() {
        Ok(Seq::empty())
    } else {
        let t = spec_trim_start(lines[i]);
        if t.len() == 0 || t[0] == '#' {
            spec_parse_from(lines, i + 1)
        } else {
            match spec_parse_scalar(t) {
                Some(kv) => spec_cons_parse(
                    (kv.0, SlopValueView::Str(kv.1)),
                    spec_parse_from(lines, i + 1),
                ),
                None => match spec_parse_list_start(lines[i]) {
                    Some(k) => {
                        let e = spec_find_end(lines, i);
                        if e >= lines.len() {
                            Err(i + 1)
                        } else {
                            let nxt = if e < i {
                                i
                            } else {
                                e
                            };
                            spec_cons_parse(
                                (k, SlopValueView::List(spec_block_elems(lines, i + 1, nxt))),
                                spec_parse_from(lines, nxt + 1),
                            )
                        }
                    },
                    None => Err(i + 1),
                },
            }
        }
    }
}

/// Prepends one parsed entry to a parse outcome.
pub open spec fn spec_cons_parse(
    p: (Seq<char>, SlopValueView),
    r: Result<Seq<(Seq<char>, SlopValueView)>, int>,
) -> Result<Seq<(Seq<char>, SlopValueView)>, int> {
    match r {
        Ok(q) => Ok(seq![p] + q),
        Err(e) => Err(e),
    }
}

/// Prepends already parsed entries to a parse outcome.
pub open spec fn spec_append_parse(
    acc: Seq<(Seq<char>, SlopValueView)>,
    r: Result<Seq<(Seq<char>, SlopValueView)>, int>,
) -> Result<Seq<(Seq<char>, SlopValueView)>, int> {
    match r {
        Ok(q) => Ok(acc + q),
        Err(e) => Err(e),
    }
}

proof fn lemma_append_cons(
    acc: Seq<(Seq<char>, SlopValueView)>,
    p: (Seq<char>, SlopValueView),
    r: Result<Seq<(Seq<char>, SlopValueView)>, int>,
)
    ensures
        spec_append_parse(acc, spec_cons_parse(p, r)) == spec_append_parse(acc.push(p), r),
{
    match r {
        Ok(q) => {
            assert(acc + (seq![p] + q) =~= acc.push(p) + q);
        },
        Err(_) => {},
    }
}

/// Recognizes a list-closing line.
fn is_end_line(l: &str) -> (r: bool)
    ensures
        r == spec_is_end_line(l@),
{
    let t = trim_start(l);
    let n = t.unicode_len();
    if n == 0 {
        return false;
    }
    if t.as_str().get_char(0) != '}' {
        return false;
    }
    let mut i: usize = 1;
    while i < n
        invariant
            n == t@.len(),
            1 <= i <= n,
            t@ == spec_trim_start(l@),
            t@[0] == '}',
            forall|j: int| 1 <= j < i ==> is_space_char(t@[j]),
        decreases n - i,
    {
        if !is_space(t.as_str().get_char(i)) {
            proof {
                assert(!is_space_char(t@.drop_first()[i - 1]));
            }
            return false;
        }
        i = i + 1;
    }
    proof {
        assert forall|j: int| 0 <= j < t@.drop_first().len() implies is_space_char(
            #[trigger] t@.drop_first()[j],
        ) by {
            assert(t@.drop_first()[j] == t@[j + 1]);
        }
    }
    true
}

impl Slop {
    /// The store is well formed: no key occurs twice.
    pub open spec fn wf(self) -> bool {
        unique_keys(self@)
    }

    /// An empty store.
    pub fn new() -> (r: Slop)
        ensures
            r@ == Seq::<(Seq<char>, SlopValueView)>::empty(),
            r.wf(),
    {
        let r = Slop { items: Vec::new() };
        proof {
            assert(r@ =~= Seq::<(Seq<char>, SlopValueView)>::empty());
        }
        r
    }

    /// Wraps an already keyed pair list whose keys are distinct.
    pub fn from_map(items: Vec<(String, SlopValue)>) -> (r: Slop)
        requires
            unique_keys(pairs_view(items@)),
        ensures
            r@ == pairs_view(items@),
            r.wf(),
    {
        Slop { items }
    }

    /// The held entries, in order.
    pub fn entries(&self) -> (r: &Vec<(String, SlopValue)>)
        ensures
            pairs_view(r@) == self@,
    {
        &self.items
    }

    /// The value under `key`, if any.
    pub fn get(&self, key: &str) -> (r: Option<&SlopValue>)
        ensures
            match r {
                Some(v) => spec_get(self@, key@) == Some(v@),
                None => spec_get(self@, key@) is None,
            },
    {
        let n = self.items.len();
        let mut i: usize = 0;
        while i < n
            invariant
                n == self.items@.len(),
                i <= n,
                forall|j: int| 0 <= j < i ==> (#[trigger] self@[j]).0 != key@,
            decreases n - i,
        {
            if str_eq(self.items[i].0.as_str(), key) {
                proof {
                    lemma_index_of(self@, key@);
                    assert(self@[i as int].0 == key@);
                }
                return Some(&self.items[i].1);
            }
            i = i + 1;
        }
        proof {
            lemma_index_of(self@, key@);
        }
        None
    }

    /// The list under `key`; `None` if the key is absent or holds a scalar.
    pub fn get_list(&self, key: &str) -> (r: Option<&Vec<String>>)
        ensures
            match r {
                Some(v) => spec_get(self@, key@) == Some(
                    SlopValueView::List(Seq::new(v@.len(), |i: int| v@[i]@)),
                ),
                None => !(spec_get(self@, key@) matches Some(SlopValueView::List(_))),
            },
    {
        match self.get(key) {
            Some(SlopValue::List(list)) => Some(list),
            _ => None,
        }
    }

    /// Sets `key` to `value`, replacing in place or appending.
    pub fn insert(&mut self, key: &str, value: SlopValue)
        requires
            old(self).wf(),
        ensures
            final(self)@ == spec_insert(old(self)@, key@, value@),
            final(self).wf(),
    {
        let ghost s0 = self@;
        let n = self.items.len();
        let mut i: usize = 0;
        while i < n
            invariant
                self@ == s0,
                old(self)@ == s0,
                unique_keys(s0),
                n == self.items@.len(),
                i <= n,
                forall|j: int| 0 <= j < i ==> (#[trigger] s0[j]).0 != key@,
            decreases n - i,
        {
            if str_eq(self.items[i].0.as_str(), key) {
                proof {
                    lemma_index_of(s0, key@);
                    let idx = spec_index_of(s0, key@);
                    assert(s0[i as int].0 == key@);
                    assert(idx >= 0);
                    if idx < i as int {
                        assert(s0[idx].0 != key@);
                    }
                    if idx > i as int {
                        assert(s0[i as int].0 != key@);
                    }
                    assert(idx == i as int);
                }
                self.items.set(i, (key.to_owned(), value));
                proof {
                    assert(self@ =~= s0.update(i as int, (key@, value@)));
                }
                return;
            }
            i = i + 1;
        }
        proof {
            lemma_index_of(s0, key@);
        }
        self.items.push((key.to_owned(), value));
        proof {
            assert(self@ =~= s0.push((key@, value@)));
        }
    }

    /// Parses `lines` and inserts every parsed entry, in order of
    /// appearance; on a malformed line nothing is inserted at all.
    pub fn parse_lines(&mut self, lines: &Vec<String>) -> (r: Result<(), SlopError>)
        requires
            old(self).wf(),
        ensures
            match r {
                Ok(()) => spec_parse_from(lines_view(lines@), 0) matches Ok(ps) && final(self)@
                    == spec_insert_all(old(self)@, ps) && final(self).wf(),
                Err(SlopError::MalformedLine(m)) => spec_parse_from(lines_view(lines@), 0)
                    == Err::<Seq<(Seq<char>, SlopValueView)>, int>(m as int) && final(self)@
                    == old(self)@,
            },
    {
        let ghost lv = lines_view(lines@);
        let n = lines.len();
        let mut pairs: Vec<(String, SlopValue)> = Vec::new();
        let mut i: usize = 0;
        proof {
            assert(pairs_view(pairs@) =~= Seq::<(Seq<char>, SlopValueView)>::empty());
            assert(pairs_view(pairs@) + Seq::<(Seq<char>, SlopValueView)>::empty() =~= pairs_view(
                pairs@,
            ));
        }
        while i < n
            invariant
                n == lines@.len(),
                lv == lines_view(lines@),
                i <= n,
                spec_parse_from(lv, 0) == spec_append_parse(
                    pairs_view(pairs@),
                    spec_parse_from(lv, i as int),
                ),
            decreases n - i,
        {
            let ghost pv0 = pairs_view(pairs@);
            let line = &lines[i];
            let t = trim_start(line.as_str());
            proof {
                assert(lv[i as int] == lines@[i as int]@);
            }
            let tn = t.unicode_len();
            if tn == 0 || t.as_str().get_char(0) == '#' {
                i = i + 1;
                continue;
            }
            // Scalar entry?
            let j = find_either(t.as_str(), '=', '}');
            if j < tn && t.as_str().get_char(j) == '=' {
                let k = t.as_str().substring_char(0, j).to_owned();
                let v = t.as_str().substring_char(j + 1, tn).to_owned();
                let ghost p = (k@, SlopValueView::Str(v@));
                proof {
                    assert(spec_parse_scalar(t@) == Some((k@, v@)));
                    assert(spec_parse_from(lv, i as int) == spec_cons_parse(
                        p,
                        spec_parse_from(lv, i as int + 1),
                    ));
                    lemma_append_cons(pv0, p, spec_parse_from(lv, i as int + 1));
                }
                pairs.push((k, SlopValue::Str(v)));
                proof {
                    assert(pairs_view(pairs@) =~= pv0.push(p));
                }
                i = i + 1;
                continue;
            }
            // List entry?
            let te = trim_end(line.as_str());
            let ten = te.unicode_len();
            let mut is_start = false;
            if ten > 0 && te.as_str().get_char(ten - 1) == '{' {
                let js = find_either(te.as_str(), '=', '}');
                is_start = js >= ten - 1;
                proof {
                    let tail = te@.drop_last();
                    lemma_find_either(te@, 0, '=', '}');
                    lemma_find_either(tail, 0, '=', '}');
                    if js as int >= ten - 1 {
                        assert(forall|x: int|
                            0 <= x < tail.len() ==> tail[x] == #[trigger] te@[x]);
                        assert(forall|x: int|
                            0 <= x < tail.len() ==> tail[x] != '=' && tail[x] != '}');
                        assert(spec_find_either(tail, 0, '=', '}') == tail.len());
                    } else {
                        assert(te@[js as int] == '=' || te@[js as int] == '}');
                        assert(tail[js as int] == te@[js as int]);
                        assert(spec_find_either(tail, 0, '=', '}') <= js as int);
                    }
                }
            }
            if is_start {
                let key = te.as_str().substring_char(0, ten - 1).to_owned();
                proof {
                    assert(key@ =~= te@.drop_last());
                    assert(spec_parse_list_start(lv[i as int]) == Some(key@));
                }
                // Find the closing line.
                let mut e: usize = i;
                while e < n && !is_end_line(lines[e].as_str())
                    invariant
                        n == lines@.len(),
                        lv == lines_view(lines@),
                        i <= e <= n,
                        spec_find_end(lv, i as int) == spec_find_end(lv, e as int),
                    decreases n - e,
                {
                    e = e + 1;
                }
                proof {
                    assert(spec_find_end(lv, i as int) == e as int);
                }
                if e == n {
                    proof {
                        assert(spec_parse_from(lv, i as int) == Err::<
                            Seq<(Seq<char>, SlopValueView)>,
                            int,
                        >(i as int + 1));
                    }
                    return Err(SlopError::MalformedLine(i + 1));
                }
                let mut elems: Vec<String> = Vec::new();
                let mut x: usize = i + 1;
                while x < e
                    invariant
                        n == lines@.len(),
                        lv == lines_view(lines@),
                        i as int + 1 <= x as int,
                        x as int <= e as int || x as int == i as int + 1,
                        e < n,
                        elems@.len() == x as int - (i as int + 1),
                        forall|q: int|
                            0 <= q < elems@.len() ==> (#[trigger] elems@[q])@ == spec_trim_start(
                                lv[i as int + 1 + q],
                            ),
                    decreases e - x,
                {
                    let el = trim_start(lines[x].as_str());
                    proof {
                        assert(lv[x as int] == lines@[x as int]@);
                    }
                    elems.push(el);
                    x = x + 1;
                }
                let ghost p = (
                    key@,
                    SlopValueView::List(spec_block_elems(lv, i as int + 1, e as int)),
                );
                proof {
                    if e as int >= i as int + 1 {
                        assert(x as int == e as int);
                    }
                    assert(Seq::new(elems@.len(), |q: int| elems@[q]@) =~= spec_block_elems(
                        lv,
                        i as int + 1,
                        e as int,
                    ));
                }
                proof {
                    assert(spec_parse_from(lv, i as int) == spec_cons_parse(
                        p,
                        spec_parse_from(lv, e as int + 1),
                    ));
                    lemma_append_cons(pv0, p, spec_parse_from(lv, e as int + 1));
                }
                pairs.push((key, SlopValue::List(elems)));
                proof {
                    assert(pairs_view(pairs@) =~= pv0.push(p));
                }
                i = e + 1;
                continue;
            }
            proof {
                assert(spec_parse_scalar(t@) is None);
                assert(spec_parse_list_start(lv[i as int]) is None);
                assert(spec_parse_from(lv, i as int) == Err::<
                    Seq<(Seq<char>, SlopValueView)>,
                    int,
                >(i as int + 1));
            }
            return Err(SlopError::MalformedLine(i + 1));
        }
        proof {
            assert(spec_parse_from(lv, n as int) == Ok::<
                Seq<(Seq<char>, SlopValueView)>,
                int,
            >(Seq::empty()));
            assert(pairs_view(pairs@) + Seq::<(Seq<char>, SlopValueView)>::empty() =~= pairs_view(
                pairs@,
            ));
        }
        let ghost full = pairs_view(pairs@);
        // Insert the parsed entries, first to last.
        while pairs.len() > 0
            invariant
                self.wf(),
                spec_insert_all(old(self)@, full) == spec_insert_all(self@, pairs_view(pairs@)),
            decreases pairs.len(),
        {
            let ghost pv = pairs_view(pairs@);
            let kv = pairs.remove(0);
            let (ks, val) = kv;
            proof {
                assert(pairs_view(pairs@) =~= pv.drop_first());
                assert(pv[0] == (ks@, val@));
            }
            self.insert(ks.as_str(), val);
        }
        proof {
            assert(pairs_view(pairs@) =~= Seq::<(Seq<char>, SlopValueView)>::empty());
        }
        Ok(())
    }

    /// Parses a snapshot from its text lines.
    pub fn from_lines(lines: Vec<String>) -> (r: Result<Slop, SlopError>)
        ensures
            match r {
                Ok(s) => spec_parse_from(lines_view(lines@), 0) matches Ok(ps) && s@
                    == spec_insert_all(Seq::empty(), ps) && s.wf(),
                Err(SlopError::MalformedLine(m)) => spec_parse_from(lines_view(lines@), 0)
                    == Err::<Seq<(Seq<char>, SlopValueView)>, int>(m as int),
            },
    {
        let mut s = Slop::new();
        match s.parse_lines(&lines) {
            Ok(()) => Ok(s),
            Err(e) => Err(e),
        }
    }

    /// Sets `key` to the scalar `value`.
    pub fn insert_str(&mut self, key: &str, value: &str)
        requires
            old(self).wf(),
        ensures
            final(self)@ == spec_insert(old(self)@, key@, SlopValueView::Str(value@)),
            final(self).wf(),
    {
        self.insert(key, SlopValue::Str(value.to_owned()));
    }
}

// ------------------------------------------------------------------
// The round trip: parsing the serialized text of a clean store gives the
// store back, entry for entry.
// ------------------------------------------------------------------

/// A key the text form can carry: free of `=`, `{`, `}` and newlines, and
/// not opening with whitespace or `#`.
pub open spec fn clean_key(k: Seq<char>) -> bool {
    &&& forall|i: int|
        0 <= i < k.len() ==> k[i] != '=' && k[i] != '{' && k[i] != '}' && k[i] != '\n'
    &&& (k.len() > 0 ==> !is_space_char(k[0]) && k[0] != '#')
}

/// A scalar value the text form can carry: no newline, no closing carriage
/// return (which line splitting would strip).
pub open spec fn clean_scalar(v: Seq<char>) -> bool {
    &&& forall|i: int| 0 <= i < v.len() ==> v[i] != '\n'
    &&& !(v.len() > 0 && v.last() == '\r')
}

/// A list element the text form can carry: no newline, no leading
/// whitespace, no closing carriage return, and not shaped like a block
/// terminator.
pub open spec fn clean_elem(e: Seq<char>) -> bool {
    &&& forall|i: int| 0 <= i < e.len() ==> e[i] != '\n'
    &&& (e.len() > 0 ==> !is_space_char(e[0]))
    &&& !(e.len() > 0 && e.last() == '\r')
    &&& !(e.len() > 0 && e[0] == '}' && all_spaces(e.drop_first()))
}

pub open spec fn clean_value(v: SlopValueView) -> bool {
    match v {
        SlopValueView::Str(s) => clean_scalar(s),
        SlopValueView::List(es) => forall|i: int| 0 <= i < es.len() ==> clean_elem(#[trigger] es[i]),
    }
}

pub open spec fn clean_pairs(s: Seq<(Seq<char>, SlopValueView)>) -> bool {
    forall|i: int|
        0 <= i < s.len() ==> clean_key((#[trigger] s[i]).0) && clean_value(s[i].1)
}

/// The lines of one serialized entry.
pub open spec fn spec_elem_lines(es: Seq<Seq<char>>) -> Seq<Seq<char>> {
    Seq::new(es.len(), |i: int| seq![' ', ' ', ' ', ' '] + es[i])
}

pub open spec fn spec_pair_lines(k: Seq<char>, v: SlopValueView) -> Seq<Seq<char>> {
    match v {
        SlopValueView::Str(s) => seq![k + seq!['='] + s],
        SlopValueView::List(es) => seq![k + seq!['{']] + spec_elem_lines(es) + seq![seq!['}']],
    }
}

/// Splitting distributes over concatenation at a newline boundary.
proof fn lemma_split_append(a: Seq<char>, b: Seq<char>)
    requires
        a.len() > 0,
        a.last() == '\n',
    ensures
        spec_split_lines(a + b) == spec_split_lines(a) + spec_split_lines(b),
    decreases a.len(),
{
    reveal_with_fuel(spec_split_lines, 2);
    let t = a + b;
    lemma_find_from(a, 0, '\n');
    let ja = spec_find_from(a, 0, '\n');
    assert(a[a.len() - 1] == '\n');
    assert(ja < a.len());
    assert(forall|x: int| 0 <= x < ja ==> #[trigger] t[x] == a[x] && a[x] != '\n');
    assert(t[ja] == a[ja]);
    lemma_find_from_exact(t, '\n', ja);
    assert(t.subrange(0, ja) =~= a.subrange(0, ja));
    if ja == a.len() - 1 {
        assert(a.subrange(ja + 1, a.len() as int) =~= Seq::<char>::empty());
        assert(t.subrange(ja + 1, t.len() as int) =~= b);
        assert(spec_split_lines(a) == seq![strip_cr(a.subrange(0, ja))] + spec_split_lines(
            Seq::<char>::empty(),
        ));
        assert(spec_split_lines(a) =~= seq![strip_cr(a.subrange(0, ja))]);
        assert(spec_split_lines(t) == seq![strip_cr(t.subrange(0, ja))] + spec_split_lines(b));
    } else {
        let a2 = a.subrange(ja + 1, a.len() as int);
        assert(a2.len() > 0);
        assert(a2.last() == a[a.len() - 1]);
        lemma_split_append(a2, b);
        assert(t.subrange(ja + 1, t.len() as int) =~= a2 + b);
        assert(spec_split_lines(t) == seq![strip_cr(t.subrange(0, ja))] + (spec_split_lines(a2)
            + spec_split_lines(b)));
        assert(spec_split_lines(a) == seq![strip_cr(a.subrange(0, ja))] + spec_split_lines(a2));
        assert(seq![strip_cr(a.subrange(0, ja))] + (spec_split_lines(a2) + spec_split_lines(b))
            =~= (seq![strip_cr(a.subrange(0, ja))] + spec_split_lines(a2)) + spec_split_lines(b));
    }
}

/// The element lines of a clean list, followed by the closing line, split
/// exactly into those lines.
proof fn lemma_split_elems(es: Seq<Seq<char>>)
    requires
        forall|i: int| 0 <= i < es.len() ==> clean_elem(#[trigger] es[i]),
    ensures
        spec_split_lines(spec_serialize_elems(es) + seq!['}', '\n']) == spec_elem_lines(es)
            + seq![seq!['}']],
    decreases es.len(),
{
    reveal_with_fuel(spec_split_lines, 3);
    if es.len() == 0 {
        let t = spec_serialize_elems(es) + seq!['}', '\n'];
        assert(t =~= seq!['}', '\n']);
        lemma_find_from_exact(t, '\n', 1);
        assert(t.subrange(0, 1) =~= seq!['}']);
        assert(t.subrange(2, 2) =~= Seq::<char>::empty());
        assert(spec_split_lines(t) =~= seq![seq!['}']]);
        assert(spec_elem_lines(es) + seq![seq!['}']] =~= seq![seq!['}']]);
    } else {
        let e0 = es[0];
        let line = seq![' ', ' ', ' ', ' '] + e0 + seq!['\n'];
        let rest_text = spec_serialize_elems(es.drop_first()) + seq!['}', '\n'];
        assert(spec_serialize_elems(es) + seq!['}', '\n'] =~= line + rest_text);
        assert(line.last() == '\n');
        lemma_split_append(line, rest_text);
        // split(line) is the single indented element line
        assert(forall|x: int| 0 <= x < 4 ==> #[trigger] line[x] != '\n');
        assert(forall|x: int| 0 <= x < e0.len() ==> #[trigger] line[4 + x] == e0[x]);
        assert(forall|x: int| 4 <= x < 4 + e0.len() ==> #[trigger] line[x] != '\n');
        lemma_find_from_exact(line, '\n', 4 + e0.len() as int);
        assert(line.subrange(0, 4 + e0.len() as int) =~= seq![' ', ' ', ' ', ' '] + e0);
        assert(line.subrange(4 + e0.len() as int + 1, line.len() as int) =~= Seq::<char>::empty());
        let l0 = seq![' ', ' ', ' ', ' '] + e0;
        assert(l0.last() != '\r');
        assert(strip_cr(l0) == l0);
        assert(spec_split_lines(line) =~= seq![l0]);
        assert(forall|i: int|
            0 <= i < es.drop_first().len() ==> clean_elem(#[trigger] es.drop_first()[i]));
        lemma_split_elems(es.drop_first());
        assert(spec_split_lines(line + rest_text) == seq![l0] + (spec_elem_lines(es.drop_first())
            + seq![seq!['}']]));
        assert(seq![l0] + (spec_elem_lines(es.drop_first()) + seq![seq!['}']]) =~= spec_elem_lines(
            es,
        ) + seq![seq!['}']]);
    }
}

/// The serialized text of one clean entry splits into its lines.
proof fn lemma_split_pair(k: Seq<char>, v: SlopValueView)
    requires
        clean_key(k),
        clean_value(v),
    ensures
        spec_split_lines(spec_serialize_pair(k, v)) == spec_pair_lines(k, v),
{
    reveal_with_fuel(spec_split_lines, 3);
    match v {
        SlopValueView::Str(s) => {
            let t = k + seq!['='] + s + seq!['\n'];
            let l0 = k + seq!['='] + s;
            assert(forall|x: int| 0 <= x < k.len() ==> #[trigger] t[x] == k[x]);
            assert(t[k.len() as int] == '=');
            assert(forall|x: int| 0 <= x < s.len() ==> #[trigger] t[k.len() + 1 + x] == s[x]);
            assert(forall|x: int|
                k.len() + 1 <= x < l0.len() ==> #[trigger] t[x] == s[x - k.len() - 1]);
            assert(forall|x: int| 0 <= x < l0.len() ==> #[trigger] t[x] != '\n');
            lemma_find_from_exact(t, '\n', l0.len() as int);
            assert(t.subrange(0, l0.len() as int) =~= l0);
            assert(t.subrange(l0.len() as int + 1, t.len() as int) =~= Seq::<char>::empty());
            assert(l0.len() > 0);
            assert(l0.last() != '\r');
            assert(strip_cr(l0) == l0);
            assert(spec_split_lines(t) =~= seq![l0]);
        },
        SlopValueView::List(es) => {
            let head = k + seq!['{', '\n'];
            let tail = spec_serialize_elems(es) + seq!['}', '\n'];
            assert(spec_serialize_pair(k, v) =~= head + tail);
            assert(head.last() == '\n');
            lemma_split_append(head, tail);
            let l0 = k + seq!['{'];
            assert(forall|x: int| 0 <= x < k.len() ==> #[trigger] head[x] == k[x]);
            assert(forall|x: int| 0 <= x < l0.len() ==> #[trigger] head[x] != '\n');
            assert(head[l0.len() as int] == '\n');
            lemma_find_from_exact(head, '\n', l0.len() as int);
            assert(head.subrange(0, l0.len() as int) =~= l0);
            assert(head.subrange(l0.len() as int + 1, head.len() as int) =~= Seq::<char>::empty());
            assert(l0.last() != '\r');
            assert(strip_cr(l0) == l0);
            assert(spec_split_lines(head) =~= seq![l0]);
            lemma_split_elems(es);
            assert(spec_split_lines(spec_serialize_pair(k, v)) == seq![l0] + (spec_elem_lines(es)
                + seq![seq!['}']]));
            assert(seq![l0] + (spec_elem_lines(es) + seq![seq!['}']]) =~= spec_pair_lines(k, v));
        },
    }
}

/// The end-of-block search stops exactly at the first closing line.
proof fn lemma_find_end_exact(lines: Seq<Seq<char>>, lo: int, hi: int)
    requires
        0 <= lo <= hi < lines.len(),
        forall|x: int| lo <= x < hi ==> !spec_is_end_line(#[trigger] lines[x]),
        spec_is_end_line(lines[hi]),
    ensures
        spec_find_end(lines, lo) == hi,
    decreases hi - lo,
{
    if lo < hi {
        lemma_find_end_exact(lines, lo + 1, hi);
    }
}

/// Parsing a suffix of lines that is exactly the split serialization of
/// clean entries yields those entries.
proof fn lemma_parse_serialized(
    all: Seq<Seq<char>>,
    i: int,
    items: Seq<(Seq<char>, SlopValueView)>,
)
    requires
        0 <= i <= all.len(),
        all.subrange(i, all.len() as int) == spec_split_lines(spec_serialize(items)),
        clean_pairs(items),
    ensures
        spec_parse_from(all, i) == Ok::<Seq<(Seq<char>, SlopValueView)>, int>(items),
    decreases items.len(),
{
    let suffix = all.subrange(i, all.len() as int);
    if items.len() == 0 {
        assert(spec_serialize(items) == Seq::<char>::empty());
        assert(spec_split_lines(Seq::<char>::empty()) =~= Seq::<Seq<char>>::empty());
        assert(suffix.len() == 0);
        assert(i == all.len());
        assert(items =~= Seq::<(Seq<char>, SlopValueView)>::empty());
    } else {
        let p = items[0];
        let rest = items.drop_first();
        assert(clean_key(p.0) && clean_value(p.1));
        assert(forall|q: int|
            0 <= q < rest.len() ==> #[trigger] rest[q] == items[q + 1]);
        assert(clean_pairs(rest));
        let ptext = spec_serialize_pair(p.0, p.1);
        assert(spec_serialize(items) == ptext + spec_serialize(rest));
        assert(ptext.len() > 0 && ptext.last() == '\n') by {
            match p.1 {
                SlopValueView::Str(s) => {},
                SlopValueView::List(es) => {},
            }
        }
        lemma_split_append(ptext, spec_serialize(rest));
        lemma_split_pair(p.0, p.1);
        let pl = spec_pair_lines(p.0, p.1);
        let rl = spec_split_lines(spec_serialize(rest));
        assert(suffix == pl + rl);
        assert forall|q: int| 0 <= q < pl.len() + rl.len() implies #[trigger] all[i + q] == (pl
            + rl)[q] by {
            assert(suffix[q] == all[i + q]);
        }
        assert forall|x: int| 0 <= x < rl.len() implies all.subrange(
            i + pl.len() as int,
            all.len() as int,
        )[x] == rl[x] by {
            assert(all.subrange(i + pl.len() as int, all.len() as int)[x] == all[i + pl.len()
                + x]);
            assert(all[i + (pl.len() + x)] == (pl + rl)[pl.len() + x]);
            assert((pl + rl)[pl.len() + x] == rl[x]);
        }
        assert(all.subrange(i + pl.len() as int, all.len() as int) =~= rl);
        let k = p.0;
        match p.1 {
            SlopValueView::Str(s) => {
                let line = k + seq!['='] + s;
                assert(pl[0] == line);
                assert(all[i + 0] == (pl + rl)[0]);
                assert((pl + rl)[0] == pl[0]);
                assert(all[i] == line);
                // the line parses as this very scalar
                assert(line.len() > 0);
                if k.len() > 0 {
                    assert(line[0] == k[0]);
                } else {
                    assert(line[0] == '=');
                }
                assert(!is_space_char(line[0]) && line[0] != '#');
                assert(spec_trim_start(line) == line);
                assert(forall|x: int| 0 <= x < k.len() ==> #[trigger] line[x] == k[x]);
                assert(forall|x: int|
                    0 <= x < k.len() ==> #[trigger] line[x] != '=' && line[x] != '}');
                assert(line[k.len() as int] == '=');
                lemma_find_either_exact(line, '=', '}', k.len() as int);
                assert(line.subrange(0, k.len() as int) =~= k);
                assert(line.subrange(k.len() as int + 1, line.len() as int) =~= s);
                assert(spec_parse_scalar(line) == Some((k, s)));
                // the rest of the lines parse as the remaining entries
                assert(all.subrange(i + 1, all.len() as int) =~= rl);
                lemma_parse_serialized(all, i + 1, rest);
                assert(spec_parse_from(all, i) == spec_cons_parse(
                    (k, SlopValueView::Str(s)),
                    spec_parse_from(all, i + 1),
                ));
                assert(seq![p] + rest =~= items);
            },
            SlopValueView::List(es) => {
                let m = es.len() as int;
                let line = k + seq!['{'];
                assert(pl.len() == m + 2);
                assert(pl[0] == line) by {
                    assert((seq![line] + spec_elem_lines(es))[0] == line);
                }
                assert(all[i + 0] == (pl + rl)[0]);
                assert((pl + rl)[0] == pl[0]);
                assert(all[i] == line);
                assert forall|q: int| 0 <= q < m implies #[trigger] pl[1 + q] == seq![
                    ' ',
                    ' ',
                    ' ',
                    ' ',
                ] + es[q] by {
                    assert((seq![line] + spec_elem_lines(es))[1 + q] == spec_elem_lines(es)[q]);
                    assert(pl[1 + q] == (seq![line] + spec_elem_lines(es))[1 + q]);
                }
                assert(pl[1 + m] == seq!['}']);
                assert forall|q: int| 0 <= q < m implies #[trigger] all[i + 1 + q] == seq![
                    ' ',
                    ' ',
                    ' ',
                    ' ',
                ] + es[q] by {
                    assert(all[i + (1 + q)] == (pl + rl)[1 + q]);
                    assert((pl + rl)[1 + q] == pl[1 + q]);
                }
                assert(all[i + 1 + m] == seq!['}']) by {
                    assert(all[i + (1 + m)] == (pl + rl)[1 + m]);
                    assert((pl + rl)[1 + m] == pl[1 + m]);
                }
                // the opening line is neither blank, comment, nor scalar
                assert(line.len() > 0);
                if k.len() > 0 {
                    assert(line[0] == k[0]);
                } else {
                    assert(line[0] == '{');
                }
                assert(!is_space_char(line[0]) && line[0] != '#');
                assert(spec_trim_start(line) == line);
                assert(forall|x: int|
                    0 <= x < line.len() ==> #[trigger] line[x] != '=' && line[x] != '}');
                lemma_find_either_exact(line, '=', '}', line.len() as int);
                assert(spec_parse_scalar(line) is None);
                // but it does open a list with key `k`
                assert(!is_space_char(line.last()));
                assert(spec_trim_end(line) == line);
                assert(line.last() == '{');
                assert(line.drop_last() =~= k);
                assert(forall|x: int|
                    0 <= x < k.len() ==> #[trigger] k[x] != '=' && k[x] != '}');
                lemma_find_either_exact(k, '=', '}', k.len() as int);
                assert(spec_parse_list_start(line) == Some(k));
                // the closing line is the first one shaped like `}`
                assert forall|x: int| i <= x < i + 1 + m implies !spec_is_end_line(
                    #[trigger] all[x],
                ) by {
                    if x == i {
                        assert(all[x] == line);
                        assert(spec_trim_start(line) == line);
                        assert(line[0] != '}');
                    } else {
                        let e = es[x - i - 1];
                        assert(all[i + 1 + (x - i - 1)] == seq![' ', ' ', ' ', ' '] + e);
                        assert(all[x] == seq![' ', ' ', ' ', ' '] + e);
                        lemma_trim_four_spaces(e);
                        assert(clean_elem(e));
                        if e.len() > 0 && e[0] == '}' {
                            assert(!all_spaces(e.drop_first()));
                        }
                    }
                }
                assert(spec_is_end_line(seq!['}'])) by {
                    let l = seq!['}'];
                    assert(!is_space_char(l[0]));
                    assert(spec_trim_start(l) == l);
                    assert(l.drop_first() =~= Seq::<char>::empty());
                }
                assert(suffix.len() == pl.len() + rl.len());
                assert(i + 1 + m < all.len());
                lemma_find_end_exact(all, i, i + 1 + m);
                let e = i + 1 + m;
                // the elements between come back exactly
                assert(spec_block_elems(all, i + 1, e) =~= es) by {
                    assert forall|q: int| 0 <= q < m implies spec_trim_start(all[i + 1 + q])
                        == es[q] by {
                        assert(all[i + 1 + q] == seq![' ', ' ', ' ', ' '] + es[q]);
                        lemma_trim_four_spaces(es[q]);
                    }
                }
                // the rest of the lines parse as the remaining entries
                assert(all.subrange(e + 1, all.len() as int) =~= rl);
                lemma_parse_serialized(all, e + 1, rest);
                assert(spec_parse_from(all, i) == spec_cons_parse(
                    (k, SlopValueView::List(spec_block_elems(all, i + 1, e))),
                    spec_parse_from(all, e + 1),
                ));
                assert(seq![p] + rest =~= items);
            },
        }
    }
}

/// Removing four spaces of indent gives a clean element back.
proof fn lemma_trim_four_spaces(e: Seq<char>)
    requires
        e.len() > 0 ==> !is_space_char(e[0]),
    ensures
        spec_trim_start(seq![' ', ' ', ' ', ' '] + e) == e,
{
    let l = seq![' ', ' ', ' ', ' '] + e;
    assert(forall|j: int| 0 <= j < 4 ==> is_space_char(#[trigger] l[j]));
    if e.len() > 0 {
        assert(l[4] == e[0]);
    }
    lemma_trim_start_at(l, 4);
    assert(l.subrange(4, l.len() as int) =~= e);
}

/// Inserting entries with fresh, pairwise distinct keys appends them.
proof fn lemma_insert_all_identity(
    acc: Seq<(Seq<char>, SlopValueView)>,
    ps: Seq<(Seq<char>, SlopValueView)>,
)
    requires
        unique_keys(acc + ps),
    ensures
        spec_insert_all(acc, ps) == acc + ps,
    decreases ps.len(),
{
    if ps.len() == 0 {
        assert(acc + ps =~= acc);
    } else {
        let p = ps[0];
        assert(p == (p.0, p.1));
        lemma_index_of(acc, p.0);
        let idx = spec_index_of(acc, p.0);
        if idx >= 0 {
            assert((acc + ps)[idx] == acc[idx]);
            assert((acc + ps)[acc.len() as int] == p);
            assert(false);
        }
        assert(spec_insert(acc, p.0, p.1) == acc.push(p));
        assert(acc.push(p) + ps.drop_first() =~= acc + ps);
        lemma_insert_all_identity(acc.push(p), ps.drop_first());
    }
}

/// Serializing a well-formed store whose keys are free of `=`,
/// `{`, `}`, whose scalar values hold no newline, and whose list elements
/// hold no newline, no leading whitespace and no terminator shape, then
/// splitting the text into lines and parsing them, reproduces exactly the
/// same entries in the same order; inserting them into an empty store
/// rebuilds the store, so the key-to-value mapping comes back untouched.
/// Together with the contracts of [`Slop::serialize`],
/// [`crate::text::split_lines`] and [`Slop::from_lines`], this carries the
/// round trip to the executable code.
pub proof fn lemma_round_trip(items: Seq<(Seq<char>, SlopValueView)>)
    requires
        unique_keys(items),
        clean_pairs(items),
    ensures
        spec_parse_from(spec_split_lines(spec_serialize(items)), 0) == Ok::<
            Seq<(Seq<char>, SlopValueView)>,
            int,
        >(items),
        spec_insert_all(Seq::empty(), items) == items,
        as_map(spec_insert_all(Seq::empty(), items)) == as_map(items),
{
    let all = spec_split_lines(spec_serialize(items));
    assert(all.subrange(0, all.len() as int) =~= all);
    lemma_parse_serialized(all, 0, items);
    assert(Seq::<(Seq<char>, SlopValueView)>::empty() + items =~= items);
    lemma_insert_all_identity(Seq::empty(), items);
}

} // verus!
