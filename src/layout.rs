//! Tables of the dining room.
use vstd::prelude::*;

use crate::memdb::{Database, Error, InMemoryRepository};
use crate::{Identifier, RepoItem, Snapshot};

verus! {

/// A failure while reading the tables.
#[derive(Debug, Clone, Copy, PartialEq, Eq, Structural)]
pub enum LayoutError {
    RepoOperation(Error<TableId>),
}

/// A table; it carries no attributes of its own beyond its identifier.
#[derive(Debug, Clone, PartialEq, Eq, Structural)]
pub struct Table {}

#[derive(Debug, Clone, Copy, PartialEq, Eq, Hash, PartialOrd, Ord, Structural)]
pub struct TableId(pub u32);

pub type RepoTable = RepoItem<Table, TableId>;

/// The tables of the restaurant.
pub type TableRepository = InMemoryRepository<Table, TableId>;

impl Identifier for TableId {
    open spec fn value(self) -> u32 {
        self.0
    }

    fn from_value(v: u32) -> (r: Self) {
        TableId(v)
    }

    fn to_value(&self) -> (r: u32) {
        self.0
    }

    proof fn lemma_value_injective(a: Self, b: Self) {
    }
}

impl Snapshot for Table {
    fn snapshot(&self) -> (r: Self) {
        Table {  }
    }
}

impl From<u32> for TableId {
    fn from(value: u32) -> (r: TableId) {
        TableId(value)
    }
}

impl vstd::std_specs::convert::FromSpecImpl<u32> for TableId {
    open spec fn obeys_from_spec() -> bool {
        true
    }

    open spec fn from_spec(v: u32) -> TableId {
        TableId(v)
    }
}

impl From<TableId> for u32 {
    fn from(value: TableId) -> (r: u32) {
        value.0
    }
}

impl vstd::std_specs::convert::FromSpecImpl<TableId> for u32 {
    open spec fn obeys_from_spec() -> bool {
        true
    }

    open spec fn from_spec(v: TableId) -> u32 {
        v.0
    }
}

/// All tables, in the order they were stored.
pub fn get_tables(db: &Database) -> (r: Result<Vec<RepoTable>, LayoutError>)
    ensures
        r matches Ok(v) && v@ == db.tables@,
{
    Ok(db.tables())
}

/// The table with identifier `id`.
pub fn get(db: &Database, id: TableId) -> (r: Result<RepoTable, LayoutError>)
    requires
        db.wf(),
    ensures
        db.tables.contains_id(id) ==> r == Ok::<RepoTable, LayoutError>(
            db.tables@[db.tables.index_of_id(id)],
        ),
        !db.tables.contains_id(id) ==> r == Err::<RepoTable, LayoutError>(
            LayoutError::RepoOperation(Error::ItemNotFound { id }),
        ),
{
    match db.table(id) {
        Ok(t) => Ok(t),
        Err(e) => Err(LayoutError::RepoOperation(e)),
    }
}

} // verus!
