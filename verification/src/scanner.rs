//! The domain-agnostic walk-and-classify engine: each scanned item ends up
//! valid, invalid (with a reason) or ignored, and the reports list at most
//! [`MAX_LIST_SIZE`](crate::static_file_data::MAX_LIST_SIZE) invalid items,
//! stating only a remainder count beyond that.

use vstd::prelude::*;

use crate::static_file_data::MAX_LIST_SIZE;
use crate::text::{spec_digits, u64_string};

verus! {

/// The possible outcomes of classifying one item, other than fatal errors.
pub enum ItemStatus<B> {
    Valid,
    Invalid(B),
    Ignored,
}

impl<B: View> View for ItemStatus<B> {
    type V = ItemStatus<B::V>;

    open spec fn view(&self) -> ItemStatus<B::V> {
        match self {
            ItemStatus::Valid => ItemStatus::Valid,
            ItemStatus::Invalid(b) => ItemStatus::Invalid(b@),
            ItemStatus::Ignored => ItemStatus::Ignored,
        }
    }
}

impl<B> ItemStatus<B> {
    /// Returns `true` if the item is an [`ItemStatus::Valid`].
    pub fn is_valid(&self) -> (r: bool)
        ensures
            r == (self is Valid),
    {
        match self {
            ItemStatus::Valid => true,
            _ => false,
        }
    }
}

/// Accumulates classification outcomes: valid items increase
/// `valid_count`, invalid items are collected, ignored items change
/// nothing.
///
/// `B` is the type of the invalid items.
pub struct Scanner<B> {
    pub item_name: &'static str,
    pub valid_count: u32,
    pub invalid_items: Vec<B>,
}

impl<B> Scanner<B> {
    pub fn new(item_name: &'static str) -> (r: Scanner<B>)
        ensures
            r.item_name == item_name,
            r.valid_count == 0,
            r.invalid_items@ == Seq::<B>::empty(),
    {
        let r = Scanner { item_name, valid_count: 0, invalid_items: Vec::new() };
        proof {
            assert(r.invalid_items@ =~= Seq::<B>::empty());
        }
        r
    }

    /// Folds one classification outcome into the counts.
    pub fn register(&mut self, status: ItemStatus<B>)
        requires
            old(self).valid_count < u32::MAX,
        ensures
            final(self).item_name == old(self).item_name,
            match status {
                ItemStatus::Valid => final(self).valid_count == old(self).valid_count + 1
                    && final(self).invalid_items@ == old(self).invalid_items@,
                ItemStatus::Invalid(b) => final(self).valid_count == old(self).valid_count
                    && final(self).invalid_items@ == old(self).invalid_items@.push(b),
                ItemStatus::Ignored => final(self).valid_count == old(self).valid_count
                    && final(self).invalid_items@ == old(self).invalid_items@,
            },
    {
        match status {
            ItemStatus::Valid => {
                self.valid_count = self.valid_count + 1;
            },
            ItemStatus::Invalid(b) => {
                self.invalid_items.push(b);
            },
            ItemStatus::Ignored => {},
        }
    }

    /// All items that were counted, valid and invalid together.
    pub fn joined_count(&self) -> (r: u32)
        requires
            self.valid_count + self.invalid_items@.len() <= u32::MAX,
        ensures
            r == self.valid_count + self.invalid_items@.len(),
    {
        self.valid_count + (self.invalid_items.len() as u32)
    }

    /// Progress toward the next multiple of 1000 valid items, in tenths of
    /// a percent: `valid mod 1000` tenths.
    pub fn milestone_tenths(&self) -> (r: u32)
        ensures
            r == self.valid_count % 1000,
    {
        self.valid_count % 1000
    }
}

/// The size-capped part of a report: at most
/// [`MAX_LIST_SIZE`](crate::static_file_data::MAX_LIST_SIZE) listed items,
/// and the count of the unlisted remainder.
pub struct InvalidListing {
    pub listed: Vec<String>,
    pub remainder: usize,
}

/// Truncates the invalid-item messages for display: the first hundred are
/// listed, the rest only counted.
pub fn build_invalid_listing(messages: &Vec<String>) -> (r: InvalidListing)
    ensures
        r.listed@.len() == if messages@.len() <= MAX_LIST_SIZE {
            messages@.len() as int
        } else {
            MAX_LIST_SIZE as int
        },
        forall|i: int| 0 <= i < r.listed@.len() ==> r.listed@[i] == messages@[i],
        r.remainder == messages@.len() - r.listed@.len(),
{
    let total = messages.len();
    let cap = if total <= MAX_LIST_SIZE {
        total
    } else {
        MAX_LIST_SIZE
    };
    let mut listed: Vec<String> = Vec::new();
    let mut i: usize = 0;
    while i < cap
        invariant
            cap <= messages@.len(),
            i <= cap,
            listed@.len() == i,
            forall|j: int| 0 <= j < i ==> listed@[j] == messages@[j],
        decreases cap - i,
    {
        listed.push(messages[i].clone());
        i = i + 1;
    }
    InvalidListing { listed, remainder: total - cap }
}

impl InvalidListing {
    /// The `... and N more.` closing line; absent exactly when nothing was
    /// left unlisted.
    pub fn remainder_note(&self) -> (r: Option<String>)
        ensures
            match r {
                None => self.remainder == 0,
                Some(s) => self.remainder > 0 && s@ == "... and "@ + spec_digits(
                    self.remainder as nat,
                ) + " more."@,
            },
    {
        if self.remainder == 0 {
            return None;
        }
        let mut out = String::new();
        out.append("... and ");
        let num = u64_string(self.remainder as u64);
        out.append(num.as_str());
        out.append(" more.");
        proof {
            assert(out@ =~= "... and "@ + spec_digits(self.remainder as nat) + " more."@);
        }
        Some(out)
    }
}

} // verus!
