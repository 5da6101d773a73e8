//! Data collected by the reference generators: valid entries grouped by
//! directory key, and an invalid side-table keyed by file path, which never
//! enters the persisted snapshot.

use vstd::prelude::*;
use vstd::pervasive::VecAdditionalExecFns;

use crate::text::str_eq;

verus! {

/// Position of the first pair whose key reads as `k`, or `-1`.
pub open spec fn spec_key_index<T>(s: Seq<(String, T)>, k: Seq<char>) -> int
    decreases s.len(),
{
    if s.len() == 0 {
        -1
    } else if s[0].0@ == k {
        0
    } else {
        let r = spec_key_index(s.drop_first(), k);
        if r < 0 {
            -1
        } else {
            r + 1
        }
    }
}

pub proof fn lemma_key_index<T>(s: Seq<(String, T)>, k: Seq<char>)
    ensures
        -1 <= spec_key_index(s, k) < s.len(),
        spec_key_index(s, k) >= 0 ==> s[spec_key_index(s, k)].0@ == k,
        forall|j: int| 0 <= j < spec_key_index(s, k) ==> (#[trigger] s[j]).0@ != k,
        spec_key_index(s, k) < 0 ==> forall|j: int|
            0 <= j < s.len() ==> (#[trigger] s[j]).0@ != k,
    decreases s.len(),
{
    if s.len() > 0 && s[0].0@ != k {
        let t = s.drop_first();
        lemma_key_index(t, k);
        assert forall|j: int| 0 <= j < spec_key_index(s, k) implies (#[trigger] s[j]).0@ != k by {
            if j > 0 {
                assert(s[j] == t[j - 1]);
            }
        }
        if spec_key_index(s, k) < 0 {
            assert forall|j: int| 0 <= j < s.len() implies (#[trigger] s[j]).0@ != k by {
                if j > 0 {
                    assert(s[j] == t[j - 1]);
                }
            }
        }
    }
}

/// No two pairs carry the same key text.
pub open spec fn keys_distinct<T>(s: Seq<(String, T)>) -> bool {
    forall|i: int, j: int| 0 <= i < j < s.len() ==> (#[trigger] s[i]).0@ != (#[trigger] s[j]).0@
}

/// The number of grouped entries over all keys.
pub open spec fn spec_total<D>(s: Seq<(String, Vec<D>)>) -> int
    decreases s.len(),
{
    if s.len() == 0 {
        0int
    } else {
        s[0].1@.len() + spec_total(s.drop_first())
    }
}

proof fn lemma_total_update<D>(s: Seq<(String, Vec<D>)>, i: int, p: (String, Vec<D>))
    requires
        0 <= i < s.len(),
        p.1@.len() == s[i].1@.len() + 1,
    ensures
        spec_total(s.update(i, p)) == spec_total(s) + 1,
    decreases s.len(),
{
    if i == 0 {
        assert(s.update(0, p).drop_first() =~= s.drop_first());
    } else {
        lemma_total_update(s.drop_first(), i - 1, p);
        assert(s.update(i, p).drop_first() =~= s.drop_first().update(i - 1, p));
        assert(s.update(i, p)[0] == s[0]);
    }
}

proof fn lemma_total_push<D>(s: Seq<(String, Vec<D>)>, p: (String, Vec<D>))
    ensures
        spec_total(s.push(p)) == spec_total(s) + p.1@.len(),
    decreases s.len(),
{
    reveal_with_fuel(spec_total, 3);
    if s.len() == 0 {
        assert(s.push(p)[0] == p);
        assert(s.push(p).drop_first() =~= Seq::<(String, Vec<D>)>::empty());
    } else {
        lemma_total_push(s.drop_first(), p);
        assert(s.push(p).drop_first() =~= s.drop_first().push(p));
        assert(s.push(p)[0] == s[0]);
    }
}

/// Data collected by the reference generators.
///
/// `D` is the data of each individual item and `B` is data about invalid
/// items.
pub struct ScanData<D, B> {
    pub item_name: &'static str,
    pub valid_entries: Vec<(String, Vec<D>)>,
    pub invalid_entries: Vec<(String, B)>,
    pub valid_count: usize,
}

impl<D, B> ScanData<D, B> {
    /// The collected data is well formed: keys are grouped (no key occurs
    /// twice on either side) and the valid counter equals the number of
    /// grouped entries.
    pub open spec fn wf(self) -> bool {
        &&& keys_distinct(self.valid_entries@)
        &&& keys_distinct(self.invalid_entries@)
        &&& self.valid_count == spec_total(self.valid_entries@)
    }

    pub fn new(item_name: &'static str) -> (r: ScanData<D, B>)
        ensures
            r.wf(),
            r.item_name == item_name,
            r.valid_entries@ == Seq::<(String, Vec<D>)>::empty(),
            r.invalid_entries@ == Seq::<(String, B)>::empty(),
    {
        let r = ScanData {
            item_name,
            valid_entries: Vec::new(),
            invalid_entries: Vec::new(),
            valid_count: 0,
        };
        proof {
            assert(r.valid_entries@ =~= Seq::<(String, Vec<D>)>::empty());
            assert(r.invalid_entries@ =~= Seq::<(String, B)>::empty());
        }
        r
    }

    /// Appends a valid entry to its directory key's list, accumulating a
    /// repeated key into one group, in insertion order.
    pub fn push_valid(&mut self, key: &str, entry: D)
        requires
            old(self).wf(),
            spec_total(old(self).valid_entries@) < usize::MAX,
        ensures
            final(self).wf(),
            final(self).item_name == old(self).item_name,
            final(self).invalid_entries@ == old(self).invalid_entries@,
            spec_total(final(self).valid_entries@) == spec_total(old(self).valid_entries@) + 1,
            ({
                let i = spec_key_index(old(self).valid_entries@, key@);
                if i < 0 {
                    final(self).valid_entries@.len() == old(self).valid_entries@.len() + 1
                        && (forall|j: int|
                        0 <= j < old(self).valid_entries@.len() ==> final(self).valid_entries@[j]
                            == old(self).valid_entries@[j]) && final(self).valid_entries@.last().0@ == key@ && final(self).valid_entries@.last().1@
                        =~= seq![entry]
                } else {
                    final(self).valid_entries@.len() == old(self).valid_entries@.len() && (forall|
                        j: int,
                    |
                        0 <= j < old(self).valid_entries@.len() && j != i ==> final(self).valid_entries@[j] == old(self).valid_entries@[j]) && final(self).valid_entries@[i].0 == old(self).valid_entries@[i].0 && final(self).valid_entries@[i].1@ == old(self).valid_entries@[i].1@.push(entry)
                }
            }),
    {
        let ghost s0 = self.valid_entries@;
        let n = self.valid_entries.len();
        let mut i: usize = 0;
        while i < n
            invariant
                *self == *old(self),
                self.valid_entries@ == s0,
                old(self).wf(),
                spec_total(s0) < usize::MAX,
                n == s0.len(),
                i <= n,
                forall|j: int| 0 <= j < i ==> (#[trigger] s0[j]).0@ != key@,
            decreases n - i,
        {
            if str_eq(self.valid_entries[i].0.as_str(), key) {
                proof {
                    lemma_key_index(s0, key@);
                    let idx = spec_key_index(s0, key@);
                    assert(s0[i as int].0@ == key@);
                    assert(idx >= 0);
                    if idx < i as int {
                        assert(s0[idx].0@ != key@);
                    }
                    if idx > i as int {
                        assert(s0[i as int].0@ != key@);
                    }
                    assert(idx == i as int);
                }
                let mut pair = self.valid_entries.remove(i);
                pair.1.push(entry);
                self.valid_entries.insert(i, pair);
                self.valid_count = self.valid_count + 1;
                proof {
                    assert(self.valid_entries@ =~= s0.update(
                        i as int,
                        self.valid_entries@[i as int],
                    ));
                    lemma_total_update(s0, i as int, self.valid_entries@[i as int]);
                }
                return;
            }
            i = i + 1;
        }
        proof {
            lemma_key_index(s0, key@);
        }
        let mut fresh: Vec<D> = Vec::new();
        fresh.push(entry);
        self.valid_entries.push((key.to_owned(), fresh));
        self.valid_count = self.valid_count + 1;
        proof {
            lemma_total_push(s0, self.valid_entries@.last());
            assert(self.valid_entries@.drop_last() =~= s0);
            assert(self.valid_entries@ =~= s0.push(self.valid_entries@.last()));
        }
    }

    /// Records an invalid entry under its file path, replacing any earlier
    /// record for the same path.
    pub fn push_invalid(&mut self, key: &str, entry: B)
        requires
            old(self).wf(),
        ensures
            final(self).wf(),
            final(self).item_name == old(self).item_name,
            final(self).valid_entries@ == old(self).valid_entries@,
            ({
                let i = spec_key_index(old(self).invalid_entries@, key@);
                if i < 0 {
                    final(self).invalid_entries@.len() == old(self).invalid_entries@.len() + 1
                        && (forall|j: int|
                        0 <= j < old(self).invalid_entries@.len() ==> final(self).invalid_entries@[j] == old(self).invalid_entries@[j]) && final(self).invalid_entries@.last().0@ == key@
                        && final(self).invalid_entries@.last().1 == entry
                } else {
                    final(self).invalid_entries@.len() == old(self).invalid_entries@.len() && (
                    forall|j: int|
                        0 <= j < old(self).invalid_entries@.len() && j != i ==> final(self).invalid_entries@[j] == old(self).invalid_entries@[j]) && final(self).invalid_entries@[i].0@ == key@
                        && final(self).invalid_entries@[i].1 == entry
                }
            }),
    {
        let ghost s0 = self.invalid_entries@;
        let n = self.invalid_entries.len();
        let mut i: usize = 0;
        while i < n
            invariant
                *self == *old(self),
                self.invalid_entries@ == s0,
                old(self).wf(),
                n == s0.len(),
                i <= n,
                forall|j: int| 0 <= j < i ==> (#[trigger] s0[j]).0@ != key@,
            decreases n - i,
        {
            if str_eq(self.invalid_entries[i].0.as_str(), key) {
                proof {
                    lemma_key_index(s0, key@);
                    let idx = spec_key_index(s0, key@);
                    assert(s0[i as int].0@ == key@);
                    assert(idx >= 0);
                    if idx < i as int {
                        assert(s0[idx].0@ != key@);
                    }
                    if idx > i as int {
                        assert(s0[i as int].0@ != key@);
                    }
                    assert(idx == i as int);
                }
                self.invalid_entries.set(i, (key.to_owned(), entry));
                proof {
                    assert(self.invalid_entries@ =~= s0.update(
                        i as int,
                        self.invalid_entries@[i as int],
                    ));
                }
                return;
            }
            i = i + 1;
        }
        proof {
            lemma_key_index(s0, key@);
        }
        self.invalid_entries.push((key.to_owned(), entry));
        proof {
            assert(self.invalid_entries@.drop_last() =~= s0);
        }
    }

    /// The number of valid entries collected.
    pub fn valid_count(&self) -> (r: usize)
        requires
            self.wf(),
        ensures
            r == spec_total(self.valid_entries@),
    {
        self.valid_count
    }

    /// The number of invalid entries collected.
    pub fn invalid_count(&self) -> (r: usize)
        ensures
            r == self.invalid_entries@.len(),
    {
        self.invalid_entries.len()
    }

    /// Valid and invalid entries together: the denominator the generated
    /// snapshot records.
    pub fn joined_count(&self) -> (r: usize)
        requires
            self.wf(),
            spec_total(self.valid_entries@) + self.invalid_entries@.len() <= usize::MAX,
        ensures
            r == spec_total(self.valid_entries@) + self.invalid_entries@.len(),
    {
        self.valid_count + self.invalid_entries.len()
    }
}

} // verus!
