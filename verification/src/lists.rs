//! The small inline lists of the lexer, kept in `smallvec::SmallVec`s.
use smallvec::SmallVec;
use vstd::prelude::*;

use crate::dependencies::BalancedItem;

verus! {

/// The longest list that can still grow by one: past it, the grown buffer
/// would not fit in the address space, and growing it panics.
pub const MAX_LIST_LEN: usize = usize::MAX / 128;

/// A list of names, such as the classes of a `composes` declaration.
#[verifier::external_body]
#[derive(Debug, PartialEq, Eq, Hash)]
pub struct NameList<'s> {
    names: SmallVec<[&'s str; 2]>,
}

/// The names a [`NameList`] holds, in order.
pub uninterp spec fn name_list_view(list: NameList) -> Seq<Seq<char>>;

impl<'s> NameList<'s> {
    /// `SmallVec::new`: an empty list.
    #[verifier::external_body]
    pub(crate) fn new() -> (r: NameList<'s>)
        ensures
            name_list_view(r) == Seq::<Seq<char>>::empty(),
    {
        NameList { names: SmallVec::new() }
    }

    /// `SmallVec::push`: appends `name`. Growing a full buffer doubles its
    /// capacity, which panics on overflow; below `MAX_LIST_LEN` it does not
    /// overflow. An allocation failure aborts, which nothing here states.
    #[verifier::external_body]
    pub(crate) fn push(&mut self, name: &'s str)
        requires
            name_list_view(*old(self)).len() < MAX_LIST_LEN,
        ensures
            name_list_view(*final(self)) == name_list_view(*old(self)).push(name@),
    {
        self.names.push(name)
    }

    /// `SmallVec::len`.
    #[verifier::external_body]
    pub(crate) fn len(&self) -> (r: usize)
        ensures
            r == name_list_view(*self).len(),
    {
        self.names.len()
    }

    /// `SmallVec`'s indexing: the `i`-th name.
    #[verifier::external_body]
    pub(crate) fn get(&self, i: usize) -> (r: &'s str)
        requires
            i < name_list_view(*self).len(),
        ensures
            r@ == name_list_view(*self)[i as int],
    {
        self.names[i]
    }

    /// `SmallVec::clone`: the copied references are the same names.
    #[verifier::external_body]
    pub(crate) fn duplicate(&self) -> (r: NameList<'s>)
        ensures
            name_list_view(r) == name_list_view(*self),
    {
        NameList { names: self.names.clone() }
    }

    /// The names, in order.
    pub fn to_vec(&self) -> (r: Vec<&'s str>)
        ensures
            r@.len() == name_list_view(*self).len(),
            forall|i: int| 0 <= i < r@.len() ==> (#[trigger] r@[i])@ == name_list_view(*self)[i],
    {
        let n = self.len();
        let mut r: Vec<&'s str> = Vec::new();
        let mut i: usize = 0;
        while i < n
            invariant
                n == name_list_view(*self).len(),
                i <= n,
                r@.len() == i,
                forall|j: int| 0 <= j < i ==> (#[trigger] r@[j])@ == name_list_view(*self)[j],
            decreases n - i,
        {
            r.push(self.get(i));
            i = i + 1;
        }
        r
    }

    /// The number of names.
    pub fn count(&self) -> (r: usize)
        ensures
            r == name_list_view(*self).len(),
    {
        self.len()
    }
}

impl<'s> Clone for NameList<'s> {
    fn clone(&self) -> (r: NameList<'s>)
        ensures
            name_list_view(r) == name_list_view(*self),
    {
        self.duplicate()
    }
}

/// The stack of open parentheses and functions.
#[verifier::external_body]
pub struct BalancedItems {
    items: SmallVec<[BalancedItem; 3]>,
}

/// The items on a [`BalancedItems`] stack, bottom first.
pub uninterp spec fn balanced_items_view(items: BalancedItems) -> Seq<BalancedItem>;

impl BalancedItems {
    /// `SmallVec::new`: an empty stack.
    #[verifier::external_body]
    pub(crate) fn new() -> (r: BalancedItems)
        ensures
            balanced_items_view(r) == Seq::<BalancedItem>::empty(),
    {
        BalancedItems { items: SmallVec::new() }
    }

    /// `SmallVec::len`.
    #[verifier::external_body]
    pub(crate) fn len(&self) -> (r: usize)
        ensures
            r == balanced_items_view(*self).len(),
    {
        self.items.len()
    }

    /// `SmallVec::push`: pushes `item` on top. Growing a full buffer doubles
    /// its capacity, which panics on overflow; below `MAX_LIST_LEN` it does
    /// not overflow. An allocation failure aborts, which nothing here states.
    #[verifier::external_body]
    pub(crate) fn push(&mut self, item: BalancedItem)
        requires
            balanced_items_view(*old(self)).len() < MAX_LIST_LEN,
        ensures
            balanced_items_view(*final(self)) == balanced_items_view(*old(self)).push(item),
    {
        self.items.push(item)
    }

    /// `SmallVec::pop`: removes and returns the top item.
    #[verifier::external_body]
    pub(crate) fn pop(&mut self) -> (r: Option<BalancedItem>)
        ensures
            balanced_items_view(*old(self)).len() == 0 ==> r is None && balanced_items_view(
                *final(self),
            ) == balanced_items_view(*old(self)),
            balanced_items_view(*old(self)).len() > 0 ==> r == Some(
                balanced_items_view(*old(self)).last(),
            ) && balanced_items_view(*final(self)) == balanced_items_view(
                *old(self),
            ).drop_last(),
    {
        self.items.pop()
    }

    /// `SmallVec`'s indexing: the `i`-th item from the bottom.
    #[verifier::external_body]
    pub(crate) fn get(&self, i: usize) -> (r: BalancedItem)
        requires
            i < balanced_items_view(*self).len(),
        ensures
            r == balanced_items_view(*self)[i as int],
    {
        self.items[i]
    }
}

} // verus!
