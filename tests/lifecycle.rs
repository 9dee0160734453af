use restaurant::clock::Timestamp;
use restaurant::layout::{self, LayoutError, RepoTable, Table, TableId, TableRepository};
use restaurant::memdb::{Database, Error, InMemoryRepository};
use restaurant::menu::{self, Item, MenuError, Minutes};
use restaurant::order::{self, MissingReference, Order, OrderingError};
use restaurant::RepoItem;

fn now() -> Timestamp {
    Timestamp {
        millis: chrono::Utc::now().timestamp_millis(),
    }
}

fn pasta() -> menu::RepoItem {
    RepoItem::new(
        menu::Id(1),
        Item {
            name: "Pasta".to_string(),
            cook_time: Minutes(5),
        },
    )
}

fn sandwich() -> menu::RepoItem {
    RepoItem::new(
        menu::Id(2),
        Item {
            name: "Sandwich".to_string(),
            cook_time: Minutes(3),
        },
    )
}

fn table(id: u32) -> RepoTable {
    RepoItem::new(TableId(id), Table {})
}

fn seeded() -> Database {
    Database::new(vec![pasta(), sandwich()], vec![table(1), table(2)], vec![])
}

fn order_at(millis: i64, cook: u32, quantity: u32) -> Order {
    Order {
        table: table(1),
        menu_item: RepoItem::new(
            menu::Id(1),
            Item {
                name: "Pasta".to_string(),
                cook_time: Minutes(cook),
            },
        ),
        time_placed: Timestamp { millis },
        quantity,
    }
}

#[test]
fn scenario_place_then_zero_quantity_leaves_table_empty() {
    let mut db = Database::new(vec![pasta()], vec![table(1)], vec![]);
    let placed = order::place_order(&mut db, TableId(1), menu::Id(1), 3, now()).unwrap();
    assert_eq!(placed.id(), order::Id(1));
    assert_eq!(placed.item().quantity, 3);
    let removed = order::set_quantity(&mut db, order::Id(1), 0).unwrap();
    assert_eq!(removed.id(), order::Id(1));
    assert!(order::get_table(&db, TableId(1)).unwrap().is_empty());
    assert!(matches!(
        order::cancel(&mut db, order::Id(1)),
        Err(OrderingError::OrderNotFound(order::Id(1)))
    ));
}

#[test]
fn scenario_clear_table_returns_both_orders() {
    let mut db = seeded();
    let a = order::place_order(&mut db, TableId(1), menu::Id(1), 1, now()).unwrap();
    let b = order::place_order(&mut db, TableId(1), menu::Id(2), 2, now()).unwrap();
    let cleared = order::clear_table(&mut db, TableId(1)).unwrap();
    assert_eq!(cleared.len(), 2);
    let left = db.get_all().unwrap();
    assert!(left.iter().all(|o| o.id() != a.id() && o.id() != b.id()));
}

#[test]
fn clear_table_removes_only_that_table() {
    let mut db = seeded();
    order::place_order(&mut db, TableId(1), menu::Id(1), 1, now()).unwrap();
    let other = order::place_order(&mut db, TableId(2), menu::Id(1), 4, now()).unwrap();
    order::place_order(&mut db, TableId(1), menu::Id(2), 2, now()).unwrap();
    let before = order::get_table(&db, TableId(1)).unwrap().len();
    let cleared = order::clear_table(&mut db, TableId(1)).unwrap();
    assert_eq!(cleared.len(), before);
    assert!(cleared.iter().all(|o| o.item().table.id() == TableId(1)));
    assert!(order::get_table(&db, TableId(1)).unwrap().is_empty());
    let rest = order::get_table(&db, TableId(2)).unwrap();
    assert_eq!(rest.len(), 1);
    assert_eq!(rest[0].id(), other.id());
    assert!(order::clear_table(&mut db, TableId(1)).unwrap().is_empty());
}

#[test]
fn place_order_names_the_missing_references() {
    let mut db = seeded();
    assert!(matches!(
        order::place_order(&mut db, TableId(9), menu::Id(1), 1, now()),
        Err(OrderingError::ReferenceNotFound(MissingReference::Table(TableId(9))))
    ));
    assert!(matches!(
        order::place_order(&mut db, TableId(1), menu::Id(9), 1, now()),
        Err(OrderingError::ReferenceNotFound(MissingReference::MenuItem(menu::Id(9))))
    ));
    assert!(matches!(
        order::place_order(&mut db, TableId(9), menu::Id(8), 1, now()),
        Err(OrderingError::ReferenceNotFound(MissingReference::TableAndMenuItem(
            TableId(9),
            menu::Id(8)
        )))
    ));
    assert!(db.get_all().unwrap().is_empty());
}

#[test]
fn place_order_on_repositories_checks_references() {
    let tables: TableRepository = InMemoryRepository::from_items(vec![table(1)]);
    let dishes: menu::Repository = InMemoryRepository::from_items(vec![pasta()]);
    let mut orders: order::Repository = InMemoryRepository::new();
    let at = Timestamp { millis: 1_000 };
    assert!(matches!(
        orders.place_order(&tables, &dishes, TableId(2), menu::Id(1), 1, at),
        Err(OrderingError::ReferenceNotFound(MissingReference::Table(TableId(2))))
    ));
    assert!(matches!(
        orders.place_order(&tables, &dishes, TableId(1), menu::Id(2), 1, at),
        Err(OrderingError::ReferenceNotFound(MissingReference::MenuItem(menu::Id(2))))
    ));
    assert!(matches!(
        orders.place_order(&tables, &dishes, TableId(2), menu::Id(2), 1, at),
        Err(OrderingError::ReferenceNotFound(MissingReference::TableAndMenuItem(
            TableId(2),
            menu::Id(2)
        )))
    ));
    let placed = orders
        .place_order(&tables, &dishes, TableId(1), menu::Id(1), 2, at)
        .unwrap();
    assert_eq!(placed.id(), order::Id(1));
    assert_eq!(placed.item().menu_item.item().name, "Pasta");
    assert_eq!(placed.item().time_placed, at);
    assert_eq!(orders.items().len(), 1);
}

#[test]
fn check_references_passes_found_entities_through() {
    let r = order::check_references(TableId(1), Some(table(1)), menu::Id(1), Some(pasta()));
    let (t, m) = r.unwrap();
    assert_eq!(t.id(), TableId(1));
    assert_eq!(m.item().name, "Pasta");
    assert!(matches!(
        order::check_references(TableId(3), None, menu::Id(4), None),
        Err(MissingReference::TableAndMenuItem(TableId(3), menu::Id(4)))
    ));
}

#[test]
fn zero_quantity_does_what_cancel_does() {
    let mut a: order::Repository = InMemoryRepository::new();
    let mut b: order::Repository = InMemoryRepository::new();
    for repo in [&mut a, &mut b] {
        repo.place(table(1), pasta(), 2, Timestamp { millis: 5 }).unwrap();
        repo.place(table(2), sandwich(), 1, Timestamp { millis: 6 }).unwrap();
    }
    let by_quantity = a.set_quantity(order::Id(1), 0).unwrap();
    let by_cancel = b.cancel(order::Id(1)).unwrap();
    assert_eq!(by_quantity.id(), by_cancel.id());
    assert_eq!(by_quantity.item().quantity, by_cancel.item().quantity);
    let ids_a: Vec<order::Id> = a.items().iter().map(|o| o.id()).collect();
    let ids_b: Vec<order::Id> = b.items().iter().map(|o| o.id()).collect();
    assert_eq!(ids_a, ids_b);
    assert_eq!(ids_a, vec![order::Id(2)]);
    assert!(matches!(a.get(order::Id(1)), Err(Error::ItemNotFound { .. })));
}

#[test]
fn set_quantity_changes_only_the_quantity() {
    let mut repo: order::Repository = InMemoryRepository::new();
    let placed = repo.place(table(1), pasta(), 2, Timestamp { millis: 5 }).unwrap();
    let changed = repo.set_quantity(placed.id(), 9).unwrap();
    assert_eq!(changed.item().quantity, 9);
    assert_eq!(changed.item().time_placed, Timestamp { millis: 5 });
    assert_eq!(repo.get(placed.id()).unwrap().item().quantity, 9);
    assert!(matches!(
        repo.set_quantity(order::Id(7), 3),
        Err(OrderingError::OrderNotFound(order::Id(7)))
    ));
    assert!(matches!(
        repo.set_quantity(order::Id(7), 0),
        Err(OrderingError::OrderNotFound(order::Id(7)))
    ));
}

#[test]
fn orders_remember_their_snapshots() {
    let mut db = seeded();
    let placed = order::place_order(&mut db, TableId(2), menu::Id(2), 4, now()).unwrap();
    let read = db.get(placed.id()).unwrap();
    assert_eq!(read.item().table.id(), TableId(2));
    assert_eq!(read.item().menu_item.item().name, "Sandwich");
    assert_eq!(read.item().quantity, 4);
    assert!(matches!(
        db.get(order::Id(50)),
        Err(Error::ItemNotFound { id: order::Id(50) })
    ));
}

#[test]
fn placed_orders_carry_the_given_time() {
    let mut db = seeded();
    let at = now();
    let placed = order::place(&mut db, table(1), pasta(), 1, at).unwrap();
    assert_eq!(placed.item().time_placed, at);
    // later than 2020-01-01
    assert!(placed.item().time_placed.millis > 1_577_836_800_000);
}

#[test]
fn exhausted_order_ids_are_a_repository_error() {
    let mut repo: order::Repository = InMemoryRepository::from_items(vec![RepoItem::new(
        order::Id(u32::MAX),
        order_at(0, 5, 1),
    )]);
    assert!(matches!(
        repo.place(table(1), pasta(), 1, Timestamp { millis: 0 }),
        Err(OrderingError::RepoOperation(Error::IdsExhausted))
    ));
}

#[test]
fn remaining_minutes_counts_down() {
    // 5 minutes for each of 3 portions, one minute gone
    assert_eq!(
        order_at(0, 5, 3).estimated_minutes_remaining(Timestamp { millis: 60_000 }),
        Minutes(14)
    );
    // partly gone minutes round down
    assert_eq!(
        order_at(0, 5, 3).estimated_minutes_remaining(Timestamp { millis: 61_000 }),
        Minutes(13)
    );
    assert_eq!(
        order_at(0, 5, 3).estimated_minutes_remaining(Timestamp { millis: 0 }),
        Minutes(15)
    );
}

#[test]
fn remaining_minutes_floor_at_zero() {
    assert_eq!(
        order_at(0, 5, 3).estimated_minutes_remaining(Timestamp { millis: 900_000 }),
        Minutes(0)
    );
    assert_eq!(
        order_at(0, 5, 3).estimated_minutes_remaining(Timestamp { millis: 5_000_000 }),
        Minutes(0)
    );
}

#[test]
fn remaining_minutes_saturate() {
    assert_eq!(
        order_at(0, u32::MAX, u32::MAX).estimated_minutes_remaining(Timestamp { millis: 0 }),
        Minutes(u32::MAX)
    );
}

#[test]
fn lookups_of_tables_and_dishes() {
    let mut db = seeded();
    assert_eq!(layout::get(&db, TableId(2)).unwrap().id(), TableId(2));
    assert!(matches!(
        layout::get(&db, TableId(5)),
        Err(LayoutError::RepoOperation(Error::ItemNotFound { id: TableId(5) }))
    ));
    assert_eq!(layout::get_tables(&db).unwrap().len(), 2);
    assert_eq!(menu::get(&db, menu::Id(2)).unwrap().item().name, "Sandwich");
    assert!(matches!(
        menu::get(&db, menu::Id(5)),
        Err(MenuError::RepoOperation(Error::ItemNotFound { id: menu::Id(5) }))
    ));
    assert_eq!(menu::get_all(&db).unwrap().len(), 2);
}

#[test]
fn cook_time_can_be_changed() {
    let mut db = seeded();
    let item = menu::get(&db, menu::Id(1)).unwrap();
    item.clone().set_cook_time(&mut db, Minutes(5)).unwrap();
    item.set_cook_time(&mut db, Minutes(9)).unwrap();
    assert_eq!(
        menu::get(&db, menu::Id(1)).unwrap().item().cook_time,
        Minutes(9)
    );
    let ghost_dish = RepoItem::new(
        menu::Id(40),
        Item {
            name: "Soup".to_string(),
            cook_time: Minutes(1),
        },
    );
    assert!(matches!(
        ghost_dish.set_cook_time(&mut db, Minutes(2)),
        Err(MenuError::RepoOperation(Error::ItemNotFound { id: menu::Id(40) }))
    ));
}

#[test]
fn concurrent_placements_get_distinct_ids() {
    let db = std::sync::Arc::new(std::sync::Mutex::new(Database::new(
        vec![pasta()],
        vec![table(1)],
        vec![],
    )));
    let runtime = tokio::runtime::Builder::new_multi_thread()
        .worker_threads(4)
        .build()
        .unwrap();
    let per_caller: Vec<Vec<u32>> = runtime.block_on(async {
        let mut handles = Vec::new();
        for _ in 0..8 {
            let db = db.clone();
            handles.push(tokio::task::spawn_blocking(move || {
                (0..50)
                    .map(|_| {
                        let mut db = db.lock().unwrap();
                        order::place_order(&mut db, TableId(1), menu::Id(1), 1, now())
                            .unwrap()
                            .id()
                            .0
                    })
                    .collect::<Vec<u32>>()
            }));
        }
        let mut all = Vec::new();
        for h in handles {
            all.push(h.await.unwrap());
        }
        all
    });
    for ids in &per_caller {
        assert!(ids.windows(2).all(|w| w[0] < w[1]));
    }
    let mut all: Vec<u32> = per_caller.concat();
    all.sort();
    all.dedup();
    assert_eq!(all.len(), 400);
    let mut db = db.lock().unwrap();
    assert_eq!(db.get_all().unwrap().len(), 400);
    assert_eq!(order::clear_table(&mut db, TableId(1)).unwrap().len(), 400);
}

#[test]
fn cleared_orders_read_as_not_found() {
    let mut db = seeded();
    let a = order::place_order(&mut db, TableId(1), menu::Id(1), 1, now()).unwrap();
    order::clear_table(&mut db, TableId(1)).unwrap();
    assert!(matches!(db.remove(a.id()), Err(Error::ItemNotFound { id }) if id == a.id()));
    assert!(matches!(db.get(a.id()), Err(Error::ItemNotFound { id }) if id == a.id()));
    assert!(matches!(
        order::set_quantity(&mut db, a.id(), 2),
        Err(OrderingError::OrderNotFound(id)) if id == a.id()
    ));
}

#[test]
fn new_database_continues_after_given_orders() {
    let seeded_order = RepoItem::new(order::Id(7), order_at(0, 5, 2));
    let mut db = Database::new(vec![pasta()], vec![table(1)], vec![seeded_order]);
    assert_eq!(db.get(order::Id(7)).unwrap().item().quantity, 2);
    let placed = order::place_order(&mut db, TableId(1), menu::Id(1), 1, now()).unwrap();
    assert_eq!(placed.id(), order::Id(8));
    let fresh = Database::default();
    assert!(fresh.get_all().unwrap().is_empty());
    assert!(fresh.tables().is_empty());
    assert!(fresh.menu_items().is_empty());
}
