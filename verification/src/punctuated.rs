//! `Punctuated<T>`: a separator-delimited item list from the AST.

use vstd::prelude::*;

verus! {

/// A sequence of items separated by fixed tokens (typically commas).
///
/// Interior separators are implied by position; `has_trailing_separator`
/// records one after the final item (a trailing comma in a table
/// constructor, or a dangling separator preserved from parse recovery).
#[derive(Debug, Clone, PartialEq, Eq)]
pub struct Punctuated<T> {
    pub items: Vec<T>,
    pub has_trailing_separator: bool,
}

impl<T> View for Punctuated<T> {
    type V = Seq<T>;

    /// The items in order; the trailing-separator flag is a field of its own.
    open spec fn view(&self) -> Seq<T> {
        self.items@
    }
}

impl<T> Punctuated<T> {
    /// Iterator over the items in order.
    pub fn iter(&self) -> (it: std::slice::Iter<'_, T>)
        ensures
            vstd::std_specs::iter::IteratorSpec::remaining(&it) == self.items@.as_ref(),
    {
        self.items.iter()
    }

    /// The items as a mutable slice, for in-place rewriting of each item.
    pub fn iter_mut(&mut self) -> (items: &mut [T])
        ensures
            items@ == old(self).items@,
            final(self).items@ == final(items)@,
            final(self).has_trailing_separator == old(self).has_trailing_separator,
    {
        self.items.as_mut_slice()
    }

    pub fn get(&self, index: usize) -> (r: Option<&T>)
        ensures
            index < self@.len() ==> r == Some(&self@[index as int]),
            index >= self@.len() ==> r.is_none(),
    {
        if index < self.items.len() {
            Some(&self.items[index])
        } else {
            None
        }
    }

    pub fn first(&self) -> (r: Option<&T>)
        ensures
            self@.len() > 0 ==> r == Some(&self@[0]),
            self@.len() == 0 ==> r.is_none(),
    {
        self.get(0)
    }

    pub fn last_item(&self) -> (r: Option<&T>)
        ensures
            self@.len() > 0 ==> r == Some(&self@.last()),
            self@.len() == 0 ==> r.is_none(),
    {
        let n = self.items.len();
        if n == 0 {
            None
        } else {
            Some(&self.items[n - 1])
        }
    }

    pub fn into_items(self) -> (items: Vec<T>)
        ensures
            items@ == self@,
    {
        self.items
    }

    pub fn len(&self) -> (n: usize)
        ensures
            n == self@.len(),
    {
        self.items.len()
    }

    pub fn is_empty(&self) -> (b: bool)
        ensures
            b == (self@.len() == 0),
    {
        self.items.len() == 0
    }

    pub fn from_item(item: T) -> (p: Self)
        ensures
            p@ == seq![item],
            !p.has_trailing_separator,
    {
        let mut items = Vec::new();
        items.push(item);
        Punctuated { items, has_trailing_separator: false }
    }

    pub fn from_items(items: Vec<T>) -> (p: Self)
        ensures
            p@ == items@,
            !p.has_trailing_separator,
    {
        Punctuated { items, has_trailing_separator: false }
    }

    pub fn empty() -> (p: Self)
        ensures
            p@ == Seq::<T>::empty(),
            !p.has_trailing_separator,
    {
        Punctuated { items: Vec::new(), has_trailing_separator: false }
    }

    pub fn push(&mut self, item: T)
        ensures
            final(self)@ == old(self)@.push(item),
            final(self).has_trailing_separator == old(self).has_trailing_separator,
    {
        self.items.push(item);
    }
}

} // verus!
