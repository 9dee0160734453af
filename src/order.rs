//! Orders and their lifecycle: place, change quantity, cancel, clear a table.
use vstd::prelude::*;

use crate::clock::Timestamp;
use crate::layout::{RepoTable, TableId, TableRepository};
use crate::memdb::{only_orders_changed, Database, Error, InMemoryRepository};
use crate::menu::{self, Minutes};
use crate::{Identifier, RepoItem, Snapshot};

verus! {

/// The references of an order request that name no stored entity.
#[derive(Debug, Clone, Copy, PartialEq, Eq, Structural)]
pub enum MissingReference {
    Table(TableId),
    MenuItem(menu::Id),
    TableAndMenuItem(TableId, menu::Id),
}

/// A failure of an order operation.
#[derive(Debug, Clone, Copy, PartialEq, Eq, Structural)]
pub enum OrderingError {
    /// The order repository refused the operation.
    RepoOperation(Error<Id>),
    /// No live order has this identifier.
    OrderNotFound(Id),
    /// The requested table or dish, or both, do not exist.
    ReferenceNotFound(MissingReference),
}

/// An order: copies of the table and the dish as they were when it was placed.
#[derive(Debug, Clone)]
pub struct Order {
    pub table: RepoTable,
    pub menu_item: menu::RepoItem,
    pub time_placed: Timestamp,
    pub quantity: u32,
}

#[derive(Debug, Clone, Copy, PartialEq, Eq, Hash, PartialOrd, Ord, Structural)]
pub struct Id(pub u32);

pub type RepoOrder = RepoItem<Order, Id>;

/// The orders of the restaurant.
pub type Repository = InMemoryRepository<Order, Id>;

impl Identifier for Id {
    open spec fn value(self) -> u32 {
        self.0
    }

    fn from_value(v: u32) -> (r: Self) {
        Id(v)
    }

    fn to_value(&self) -> (r: u32) {
        self.0
    }

    proof fn lemma_value_injective(a: Self, b: Self) {
    }
}

impl Snapshot for Order {
    fn snapshot(&self) -> (r: Self) {
        Order {
            table: self.table.snapshot(),
            menu_item: self.menu_item.snapshot(),
            time_placed: self.time_placed,
            quantity: self.quantity,
        }
    }
}

impl From<u32> for Id {
    fn from(value: u32) -> (r: Id) {
        Id(value)
    }
}

impl vstd::std_specs::convert::FromSpecImpl<u32> for Id {
    open spec fn obeys_from_spec() -> bool {
        true
    }

    open spec fn from_spec(v: u32) -> Id {
        Id(v)
    }
}

impl From<Id> for u32 {
    fn from(value: Id) -> (r: u32) {
        value.0
    }
}

impl vstd::std_specs::convert::FromSpecImpl<Id> for u32 {
    open spec fn obeys_from_spec() -> bool {
        true
    }

    open spec fn from_spec(v: Id) -> u32 {
        v.0
    }
}

/// Whether an order belongs to table `t`.
pub open spec fn is_for_table(t: TableId) -> spec_fn(RepoOrder) -> bool {
    |o: RepoOrder| o.item.table.id == t
}

/// Whether an order belongs to a table other than `t`.
pub open spec fn not_for_table(t: TableId) -> spec_fn(RepoOrder) -> bool {
    |o: RepoOrder| o.item.table.id != t
}

/// Minutes of cooking left: the dish's cook time for every portion, less the time
/// since the order was placed; zero once that is used up, and at most `u32::MAX`.
pub open spec fn remaining_minutes(cook_time: nat, quantity: nat, placed: int, now: int) -> int {
    let left = cook_time * quantity * 60000 - (now - placed);
    if left <= 0 {
        0
    } else if left / 60000 > u32::MAX {
        u32::MAX as int
    } else {
        left / 60000
    }
}

impl Order {
    /// The estimate of cooking time left at `now`.
    pub fn estimated_minutes_remaining(&self, now: Timestamp) -> (r: Minutes)
        ensures
            r.0 == remaining_minutes(
                self.menu_item.item.cook_time.0 as nat,
                self.quantity as nat,
                self.time_placed.millis as int,
                now.millis as int,
            ),
    {
        let cook = self.menu_item.item.cook_time.0 as i128;
        let quantity = self.quantity as i128;
        assert(0 <= cook * quantity <= 0xffff_ffff * 0xffff_ffff) by (nonlinear_arith)
            requires
                0 <= cook <= 0xffff_ffff,
                0 <= quantity <= 0xffff_ffff,
        ;
        let total = cook * quantity * 60000;
        let elapsed = now.millis as i128 - self.time_placed.millis as i128;
        let left = total - elapsed;
        if left <= 0 {
            Minutes(0)
        } else {
            let minutes = left / 60000;
            if minutes > u32::MAX as i128 {
                Minutes(u32::MAX)
            } else {
                Minutes(minutes as u32)
            }
        }
    }
}

/// The order stored for `table`, `menu_item`, `quantity` and `time_placed`.
pub open spec fn new_order(
    table: RepoTable,
    menu_item: menu::RepoItem,
    quantity: u32,
    time_placed: Timestamp,
) -> Order {
    Order { table, menu_item, time_placed, quantity }
}

/// `post` and `r` are what placing `order` into `pre` gives: a new entry under the next
/// identifier, or a repository error once identifiers are used up.
pub open spec fn placed(
    pre: Repository,
    post: Repository,
    order: Order,
    r: Result<RepoOrder, OrderingError>,
) -> bool {
    if pre.next_id() <= u32::MAX {
        &&& r matches Ok(o)
        &&& o.id.value() == pre.next_id()
        &&& o.item == order
        &&& post@ == pre@.push(o)
        &&& post.next_id() == pre.next_id() + 1
    } else {
        &&& r == Err::<RepoOrder, OrderingError>(OrderingError::RepoOperation(Error::IdsExhausted))
        &&& post@ == pre@
        &&& post.next_id() == pre.next_id()
    }
}

/// Which references are missing, given whether the table and the dish were found.
pub open spec fn missing_reference(
    table_id: TableId,
    table_found: bool,
    item_id: menu::Id,
    item_found: bool,
) -> Option<MissingReference> {
    if table_found && item_found {
        None
    } else if item_found {
        Some(MissingReference::Table(table_id))
    } else if table_found {
        Some(MissingReference::MenuItem(item_id))
    } else {
        Some(MissingReference::TableAndMenuItem(table_id, item_id))
    }
}

/// `o` with its quantity set to `quantity`.
pub open spec fn with_quantity(o: RepoOrder, quantity: u32) -> RepoOrder {
    RepoItem {
        id: o.id,
        item: Order {
            table: o.item.table,
            menu_item: o.item.menu_item,
            time_placed: o.item.time_placed,
            quantity,
        },
    }
}

/// Takes the looked-up table and dish of an order request, and names what is missing.
pub fn check_references(
    table_id: TableId,
    table: Option<RepoTable>,
    item_id: menu::Id,
    item: Option<menu::RepoItem>,
) -> (r: Result<(RepoTable, menu::RepoItem), MissingReference>)
    ensures
        missing_reference(table_id, table is Some, item_id, item is Some) matches Some(m) ==> r
            == Err::<(RepoTable, menu::RepoItem), MissingReference>(m),
        missing_reference(table_id, table is Some, item_id, item is Some) is None ==> r == Ok::<
            (RepoTable, menu::RepoItem),
            MissingReference,
        >((table->Some_0, item->Some_0)),
{
    match (table, item) {
        (Some(t), Some(m)) => Ok((t, m)),
        (None, Some(_)) => Err(MissingReference::Table(table_id)),
        (Some(_), None) => Err(MissingReference::MenuItem(item_id)),
        (None, None) => Err(MissingReference::TableAndMenuItem(table_id, item_id)),
    }
}

impl InMemoryRepository<Order, Id> {
    /// What cancelling order `id` gives: the removed order, or `OrderNotFound`.
    pub open spec fn cancelled(&self, id: Id) -> Result<RepoOrder, OrderingError> {
        if self.contains_id(id) {
            Ok(self@[self.index_of_id(id)])
        } else {
            Err(OrderingError::OrderNotFound(id))
        }
    }

    /// What setting the quantity of order `id` gives; a zero quantity cancels it.
    pub open spec fn requantified(&self, id: Id, quantity: u32) -> Result<
        RepoOrder,
        OrderingError,
    > {
        if quantity == 0 {
            self.cancelled(id)
        } else if self.contains_id(id) {
            Ok(with_quantity(self@[self.index_of_id(id)], quantity))
        } else {
            Err(OrderingError::OrderNotFound(id))
        }
    }

    /// The orders after the quantity of order `id` is set.
    pub open spec fn after_set_quantity(&self, id: Id, quantity: u32) -> Seq<RepoOrder> {
        if quantity == 0 {
            self.without(id)
        } else if self.contains_id(id) {
            self@.update(self.index_of_id(id), with_quantity(self@[self.index_of_id(id)], quantity))
        } else {
            self@
        }
    }

    /// Every stored order asks for at least one portion.
    pub open spec fn all_active(&self) -> bool {
        forall|i: int| 0 <= i < self@.len() ==> (#[trigger] self@[i]).item.quantity > 0
    }

    /// Stores a new order for `quantity` portions of `menu_item` at `table`.
    pub fn place(
        &mut self,
        table: RepoTable,
        menu_item: menu::RepoItem,
        quantity: u32,
        time_placed: Timestamp,
    ) -> (r: Result<RepoOrder, OrderingError>)
        requires
            old(self).wf(),
            quantity > 0,
        ensures
            final(self).wf(),
            placed(*old(self), *final(self), new_order(table, menu_item, quantity, time_placed), r),
            old(self).all_active() ==> final(self).all_active(),
    {
        let order = Order { table, menu_item, time_placed, quantity };
        match self.create(order) {
            Ok(o) => Ok(o),
            Err(e) => Err(OrderingError::RepoOperation(e)),
        }
    }

    /// Looks up table `table_id` in `tables` and dish `item_id` in `menu`, and places the
    /// order when both exist.
    pub fn place_order(
        &mut self,
        tables: &TableRepository,
        menu: &menu::Repository,
        table_id: TableId,
        item_id: menu::Id,
        quantity: u32,
        time_placed: Timestamp,
    ) -> (r: Result<RepoOrder, OrderingError>)
        requires
            old(self).wf(),
            tables.wf(),
            menu.wf(),
            quantity > 0,
        ensures
            final(self).wf(),
            ({
                let missing = missing_reference(
                    table_id,
                    tables.contains_id(table_id),
                    item_id,
                    menu.contains_id(item_id),
                );
                &&& missing matches Some(m) ==> r == Err::<RepoOrder, OrderingError>(
                    OrderingError::ReferenceNotFound(m),
                ) && final(self)@ == old(self)@ && final(self).next_id() == old(self).next_id()
                &&& missing is None ==> placed(
                    *old(self),
                    *final(self),
                    new_order(
                        tables@[tables.index_of_id(table_id)],
                        menu@[menu.index_of_id(item_id)],
                        quantity,
                        time_placed,
                    ),
                    r,
                )
            }),
    {
        let table = match tables.get(table_id) {
            Ok(t) => Some(t),
            Err(_) => None,
        };
        let item = match menu.get(item_id) {
            Ok(m) => Some(m),
            Err(_) => None,
        };
        match check_references(table_id, table, item_id, item) {
            Ok((t, m)) => self.place(t, m, quantity, time_placed),
            Err(m) => Err(OrderingError::ReferenceNotFound(m)),
        }
    }

    /// Removes order `id`.
    pub fn cancel(&mut self, id: Id) -> (r: Result<RepoOrder, OrderingError>)
        requires
            old(self).wf(),
        ensures
            final(self).wf(),
            r == old(self).cancelled(id),
            final(self)@ == old(self).without(id),
            final(self).next_id() == old(self).next_id(),
            old(self).all_active() ==> final(self).all_active(),
    {
        let r = match self.remove(id) {
            Ok(o) => Ok(o),
            Err(_) => Err(OrderingError::OrderNotFound(id)),
        };
        proof {
            if old(self).all_active() && old(self).contains_id(id) {
                let k = old(self).index_of_id(id);
                assert forall|j: int| 0 <= j < self@.len() implies (#[trigger] self@[j]).item.quantity
                    > 0 by {
                    let oj = if j < k { j } else { j + 1 };
                    assert(self@[j] == old(self)@[oj]);
                }
            }
        }
        r
    }

    /// Sets the quantity of order `id`; a zero quantity cancels the order.
    pub fn set_quantity(&mut self, id: Id, quantity: u32) -> (r: Result<RepoOrder, OrderingError>)
        requires
            old(self).wf(),
        ensures
            final(self).wf(),
            r == old(self).requantified(id, quantity),
            final(self)@ == old(self).after_set_quantity(id, quantity),
            final(self).next_id() == old(self).next_id(),
            old(self).all_active() ==> final(self).all_active(),
    {
        if quantity == 0 {
            return self.cancel(id);
        }
        match self.get(id) {
            Ok(o) => {
                let mut changed = o;
                changed.item.quantity = quantity;
                let r = match self.update(changed) {
                    Ok(u) => Ok(u),
                    Err(e) => Err(OrderingError::RepoOperation(e)),
                };
                proof {
                    if old(self).all_active() {
                        let k = old(self).index_of_id(id);
                        assert forall|j: int| 0 <= j < self@.len() implies (
                        #[trigger] self@[j]).item.quantity > 0 by {
                            if j != k {
                                assert(self@[j] == old(self)@[j]);
                            }
                        }
                    }
                }
                r
            },
            Err(_) => Err(OrderingError::OrderNotFound(id)),
        }
    }
}

/// Setting an order's quantity to zero does exactly what cancelling it does: the same
/// result, the same orders afterwards, and the order is no longer live.
pub proof fn lemma_zero_quantity_cancels(pre: Repository, id: Id, post: Repository)
    requires
        pre.wf(),
        post@ == pre.after_set_quantity(id, 0),
    ensures
        pre.requantified(id, 0) == pre.cancelled(id),
        post@ == pre.without(id),
        !post.contains_id(id),
{
    if pre.contains_id(id) {
        crate::memdb::lemma_removed_stays_gone(pre, id, post);
    }
}

/// After a table is cleared no order of it is left, and as many orders were returned as
/// the table had before.
pub proof fn lemma_clear_table_exhaustive(
    pre: Repository,
    table_id: TableId,
    post: Repository,
    removed: Seq<RepoOrder>,
)
    requires
        removed == pre@.filter(is_for_table(table_id)),
        post@ == pre@.filter(not_for_table(table_id)),
    ensures
        post@.filter(is_for_table(table_id)).len() == 0,
        removed.len() == pre@.filter(is_for_table(table_id)).len(),
{
    broadcast use vstd::seq_lib::group_filter_ensures;

    assert forall|i: int| 0 <= i < post@.len() implies !is_for_table(table_id)(post@[i]) by {
        assert(not_for_table(table_id)(post@[i]));
    }
    post@.lemma_all_neg_filter_empty(is_for_table(table_id));
}

/// The orders of table `table_id`, in order; a table without orders gives an empty list.
pub fn get_table(db: &Database, table_id: TableId) -> (r: Result<Vec<RepoOrder>, OrderingError>)
    ensures
        r matches Ok(v) && v@ == db.orders@.filter(is_for_table(table_id)),
{
    Ok(db.get_table(table_id))
}

/// Places an order for `quantity` portions of `menu_item` at `table`, placed at
/// `time_placed`.
pub fn place(
    db: &mut Database,
    table: RepoTable,
    menu_item: menu::RepoItem,
    quantity: u32,
    time_placed: Timestamp,
) -> (r: Result<RepoOrder, OrderingError>)
    requires
        old(db).wf(),
        quantity > 0,
    ensures
        final(db).wf(),
        placed(old(db).orders, final(db).orders, new_order(table, menu_item, quantity, time_placed), r),
        only_orders_changed(*old(db), *final(db)),
{
    let r = db.orders.place(table, menu_item, quantity, time_placed);
    r
}

/// Looks up table `table_id` and dish `item_id`, and places the order when both exist;
/// otherwise names the missing ones and changes nothing.
pub fn place_order(
    db: &mut Database,
    table_id: TableId,
    item_id: menu::Id,
    quantity: u32,
    time_placed: Timestamp,
) -> (r: Result<RepoOrder, OrderingError>)
    requires
        old(db).wf(),
        quantity > 0,
    ensures
        final(db).wf(),
        only_orders_changed(*old(db), *final(db)),
        ({
            let tables = old(db).tables;
            let menu = old(db).menu;
            let missing = missing_reference(
                table_id,
                tables.contains_id(table_id),
                item_id,
                menu.contains_id(item_id),
            );
            &&& missing matches Some(m) ==> r == Err::<RepoOrder, OrderingError>(
                OrderingError::ReferenceNotFound(m),
            ) && final(db).orders@ == old(db).orders@ && final(db).orders.next_id() == old(
                db,
            ).orders.next_id()
            &&& missing is None ==> placed(
                old(db).orders,
                final(db).orders,
                new_order(
                    tables@[tables.index_of_id(table_id)],
                    menu@[menu.index_of_id(item_id)],
                    quantity,
                    time_placed,
                ),
                r,
            )
        }),
{
    db.orders.place_order(&db.tables, &db.menu, table_id, item_id, quantity, time_placed)
}

/// Sets the quantity of order `id`; a zero quantity cancels the order and returns it as
/// it was.
pub fn set_quantity(db: &mut Database, id: Id, quantity: u32) -> (r: Result<RepoOrder, OrderingError>)
    requires
        old(db).wf(),
    ensures
        final(db).wf(),
        r == old(db).orders.requantified(id, quantity),
        final(db).orders@ == old(db).orders.after_set_quantity(id, quantity),
        final(db).orders.next_id() == old(db).orders.next_id(),
        only_orders_changed(*old(db), *final(db)),
{
    db.orders.set_quantity(id, quantity)
}

/// Cancels order `id` and returns it.
pub fn cancel(db: &mut Database, id: Id) -> (r: Result<RepoOrder, OrderingError>)
    requires
        old(db).wf(),
    ensures
        final(db).wf(),
        r == old(db).orders.cancelled(id),
        final(db).orders@ == old(db).orders.without(id),
        final(db).orders.next_id() == old(db).orders.next_id(),
        only_orders_changed(*old(db), *final(db)),
{
    db.orders.cancel(id)
}

/// Removes and returns every order of table `table_id`, in order; an empty list is a
/// valid answer.
pub fn clear_table(db: &mut Database, table_id: TableId) -> (r: Result<Vec<RepoOrder>, OrderingError>)
    requires
        old(db).wf(),
    ensures
        final(db).wf(),
        r matches Ok(v) && v@ == old(db).orders@.filter(is_for_table(table_id)),
        final(db).orders@ == old(db).orders@.filter(not_for_table(table_id)),
        final(db).orders.next_id() == old(db).orders.next_id(),
        only_orders_changed(*old(db), *final(db)),
{
    Ok(db.remove_table_orders(table_id))
}

} // verus!
