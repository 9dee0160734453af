//! The menu: dishes and how long each takes to cook.
use vstd::prelude::*;

use crate::memdb::{Database, Error, InMemoryRepository};
use crate::{Identifier, Snapshot};

verus! {

/// A failure while reading or changing the menu.
#[derive(Debug, Clone, Copy, PartialEq, Eq, Structural)]
pub enum MenuError {
    RepoOperation(Error<Id>),
}

/// A duration in whole minutes.
#[derive(Debug, Clone, Copy, PartialEq, Eq, Structural)]
pub struct Minutes(pub u32);

/// A dish on the menu.
#[derive(Debug, Clone)]
pub struct Item {
    pub name: String,
    pub cook_time: Minutes,
}

#[derive(Debug, Clone, Copy, PartialEq, Eq, Hash, PartialOrd, Ord, Structural)]
pub struct Id(pub u32);

pub type RepoItem = crate::RepoItem<Item, Id>;

/// The dishes of the menu.
pub type Repository = InMemoryRepository<Item, Id>;

impl Identifier for Id {
    open spec fn value(self) -> u32 {
        self.0
    }

    fn from_value(v: u32) -> (r: Self) {
        Id(v)
    }

    fn to_value(&self) -> (r: u32) {
        self.0
    }

    proof fn lemma_value_injective(a: Self, b: Self) {
    }
}

impl Snapshot for Item {
    fn snapshot(&self) -> (r: Self) {
        Item { name: self.name.clone(), cook_time: self.cook_time }
    }
}

impl From<u32> for Id {
    fn from(value: u32) -> (r: Id) {
        Id(value)
    }
}

impl vstd::std_specs::convert::FromSpecImpl<u32> for Id {
    open spec fn obeys_from_spec() -> bool {
        true
    }

    open spec fn from_spec(v: u32) -> Id {
        Id(v)
    }
}

impl From<Id> for u32 {
    fn from(value: Id) -> (r: u32) {
        value.0
    }
}

impl vstd::std_specs::convert::FromSpecImpl<Id> for u32 {
    open spec fn obeys_from_spec() -> bool {
        true
    }

    open spec fn from_spec(v: Id) -> u32 {
        v.0
    }
}

/// All dishes, in the order they were stored.
pub fn get_all(db: &Database) -> (r: Result<Vec<RepoItem>, MenuError>)
    ensures
        r matches Ok(v) && v@ == db.menu@,
{
    Ok(db.menu_items())
}

/// The dish with identifier `id`.
pub fn get(db: &Database, id: Id) -> (r: Result<RepoItem, MenuError>)
    requires
        db.wf(),
    ensures
        db.menu.contains_id(id) ==> r == Ok::<RepoItem, MenuError>(
            db.menu@[db.menu.index_of_id(id)],
        ),
        !db.menu.contains_id(id) ==> r == Err::<RepoItem, MenuError>(
            MenuError::RepoOperation(Error::ItemNotFound { id }),
        ),
{
    match db.menu_item(id) {
        Ok(m) => Ok(m),
        Err(e) => Err(MenuError::RepoOperation(e)),
    }
}

/// `dish` with its cook time set to `d`.
pub open spec fn with_cook_time(dish: RepoItem, d: Minutes) -> RepoItem {
    crate::RepoItem { id: dish.id, item: Item { name: dish.item.name, cook_time: d } }
}

impl crate::RepoItem<Item, Id> {
    /// Stores this dish with cook time `d`; nothing is written when it already has it.
    pub fn set_cook_time(self, db: &mut Database, d: Minutes) -> (r: Result<(), MenuError>)
        requires
            old(db).wf(),
        ensures
            final(db).wf(),
            self.item.cook_time == d ==> r is Ok && *final(db) == *old(db),
            self.item.cook_time != d ==> {
                &&& final(db).menu@ == old(db).menu.replaced(with_cook_time(self, d))
                &&& final(db).menu.next_id() == old(db).menu.next_id()
                &&& final(db).tables == old(db).tables
                &&& final(db).orders == old(db).orders
                &&& old(db).menu.contains_id(self.id) ==> r is Ok
                &&& !old(db).menu.contains_id(self.id) ==> r == Err::<(), MenuError>(
                    MenuError::RepoOperation(Error::ItemNotFound { id: self.id }),
                )
            },
    {
        if self.item.cook_time == d {
            Ok(())
        } else {
            let mut changed = self;
            changed.item.cook_time = d;
            match db.update_menu_item(changed) {
                Ok(_) => Ok(()),
                Err(e) => Err(MenuError::RepoOperation(e)),
            }
        }
    }

    /// The dish with identifier `id`, read from `db`.
    pub fn get(&self, db: &Database, id: Id) -> (r: Result<RepoItem, MenuError>)
        requires
            db.wf(),
        ensures
            db.menu.contains_id(id) ==> r == Ok::<RepoItem, MenuError>(
                db.menu@[db.menu.index_of_id(id)],
            ),
            !db.menu.contains_id(id) ==> r == Err::<RepoItem, MenuError>(
                MenuError::RepoOperation(Error::ItemNotFound { id }),
            ),
    {
        get(db, id)
    }
}

} // verus!
