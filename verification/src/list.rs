//! Lists of language identifiers.

use crate::langid::LocaleId;
use smallvec::SmallVec;
use vstd::prelude::*;

verus! {

/// A list of language identifiers, best first. Up to eight of them are held
/// without an allocation.
#[verifier::external_body]
pub struct LanguageArray {
    items: SmallVec<[LocaleId; 8]>,
}

/// The tags that a list holds, in order.
pub uninterp spec fn tags(list: LanguageArray) -> Seq<Seq<char>>;

/// Calls `SmallVec::new`: the new list is empty.
#[verifier::external_body]
fn list_new() -> (list: LanguageArray)
    ensures
        tags(list) == Seq::<Seq<char>>::empty(),
{
    LanguageArray { items: SmallVec::new() }
}

/// Calls `SmallVec::len`: the number of items.
#[verifier::external_body]
fn list_len(list: &LanguageArray) -> (n: usize)
    ensures
        n == tags(*list).len(),
{
    list.items.len()
}

/// Indexes the list, which goes through `SmallVec::deref` to the slice of
/// its items: the item at `index`. It panics where `index` is no place in
/// the list.
#[verifier::external_body]
fn list_get(list: &LanguageArray, index: usize) -> (id: &LocaleId)
    requires
        index < tags(*list).len(),
    ensures
        id@ == tags(*list)[index as int],
{
    &list.items[index]
}

/// Calls `SmallVec::insert`, which puts `id` at `index` and moves what stood
/// there, and all behind it, one place on. It panics where `index` is past
/// the end or the length cannot grow.
#[verifier::external_body]
fn list_insert(list: &mut LanguageArray, index: usize, id: LocaleId)
    requires
        index <= tags(*old(list)).len(),
        tags(*old(list)).len() < usize::MAX,
    ensures
        tags(*final(list)) == tags(*old(list)).insert(index as int, id@),
{
    list.items.insert(index, id)
}

/// Calls `SmallVec::into_vec`: the same items in the same order.
#[verifier::external_body]
fn list_into_vec(list: LanguageArray) -> (v: Vec<LocaleId>)
    ensures
        v@.len() == tags(list).len(),
        forall|i: int| 0 <= i < v@.len() ==> (#[trigger] v@[i])@ == tags(list)[i],
{
    list.items.into_vec()
}

impl View for LanguageArray {
    type V = Seq<Seq<char>>;

    /// The tags of the list, best first.
    open spec fn view(&self) -> Seq<Seq<char>> {
        tags(*self)
    }
}

impl LanguageArray {
    /// A list without items.
    pub fn new() -> (list: LanguageArray)
        ensures
            list@ == Seq::<Seq<char>>::empty(),
    {
        list_new()
    }

    /// The number of items.
    pub fn len(&self) -> (n: usize)
        ensures
            n == self@.len(),
    {
        list_len(self)
    }

    /// The item at `index`.
    pub fn get(&self, index: usize) -> (id: &LocaleId)
        requires
            index < self@.len(),
        ensures
            id@ == self@[index as int],
    {
        list_get(self, index)
    }

    /// Puts `id` at `index`; what stood there, and all behind it, moves one
    /// place on.
    pub fn insert(&mut self, index: usize, id: LocaleId)
        requires
            index <= old(self)@.len(),
            old(self)@.len() < usize::MAX,
        ensures
            final(self)@ == old(self)@.insert(index as int, id@),
    {
        list_insert(self, index, id)
    }

    /// The items as a vector, in the same order.
    pub fn into_vec(self) -> (v: Vec<LocaleId>)
        ensures
            v@.len() == self@.len(),
            forall|i: int| 0 <= i < v@.len() ==> (#[trigger] v@[i])@ == self@[i],
    {
        list_into_vec(self)
    }
}

} // verus!
