//! Order management for a restaurant: typed identifiers, in-memory repositories with
//! copy-out semantics, the database that holds one repository per kind of entity, and
//! the order lifecycle (place, change quantity, cancel, clear a table).
use vstd::prelude::*;



pub mod clock;
pub mod layout;
pub mod memdb;
pub mod menu;
pub mod order;




verus! {

/// An identifier scoped to one kind of entity, backed by an unsigned integer.
pub trait Identifier: Copy + Sized {
    /// The integer this identifier wraps.
    spec fn value(self) -> u32;

    fn from_value(v: u32) -> (r: Self)
        ensures
            r.value() == v,
    ;

    fn to_value(&self) -> (r: u32)
        ensures
            r == self.value(),
    ;

    /// Two identifiers of one kind that wrap the same integer are the same identifier.
    proof fn lemma_value_injective(a: Self, b: Self)
        ensures
            a.value() == b.value() ==> a == b,
    ;
}

/// A value that can be handed out as an independent copy of itself.
pub trait Snapshot: Sized {
    fn snapshot(&self) -> (r: Self)
        ensures
            r == *self,
    ;
}

/// An entity together with the identifier it is stored under.
#[derive(Clone, Debug)]
pub struct RepoItem<T, I> {
    pub id: I,
    pub item: T,
}

impl<T, I: Copy> RepoItem<T, I> {
    pub fn new(id: I, item: T) -> (r: RepoItem<T, I>)
        ensures
            r.id == id,
            r.item == item,
    {
        RepoItem { id, item }
    }

    pub fn id(&self) -> (r: I)
        ensures
            r == self.id,
    {
        self.id
    }

    pub fn item(&self) -> (r: &T)
        ensures
            *r == self.item,
    {
        &self.item
    }

    pub fn item_mut(&mut self) -> (r: &mut T)
        ensures
            *r == old(self).item,
            final(self).id == old(self).id,
            final(self).item == *final(r),
    {
        &mut self.item
    }
}

impl<T: Snapshot, I: Copy> Snapshot for RepoItem<T, I> {
    fn snapshot(&self) -> (r: Self) {
        RepoItem { id: self.id, item: self.item.snapshot() }
    }
}

} // verus!
