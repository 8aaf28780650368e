use catalog_store::catalog::Catalog;
use catalog_store::errors::StoreError;
use catalog_store::product::{Num, ProductInput};

fn input(address: &str, title: &str, brand: &str, kind: &str, price: f64, date: &str) -> ProductInput {
    ProductInput {
        address: address.to_string(),
        title: title.to_string(),
        brand: brand.to_string(),
        kind: kind.to_string(),
        price: Num { bits: price.to_bits() },
        original_price: None,
        discount: None,
        specification: None,
        date: date.to_string(),
        remark: None,
        quantity: None,
        unit: None,
        unit_price: None,
        comparison_unit: None,
    }
}

#[test]
fn insert_assigns_ids_from_one() {
    let mut c = Catalog::new();
    let p1 = c.insert(input("a", "t", "b", "k", 1.0, "d"), "ts1".to_string(), 100);
    let p2 = c.insert(input("a2", "t2", "b2", "k2", 2.0, "d2"), "ts2".to_string(), 200);
    assert_eq!(p1.id, 1);
    assert_eq!(p2.id, 2);
    assert_eq!(p1.created_at, "ts1");
    assert_eq!(p2.created_at, "ts2");
}

#[test]
fn insert_then_list_shows_exactly_the_new_record() {
    let mut c = Catalog::new();
    let before = c.list();
    assert!(before.is_empty());
    let p = c.insert(input("http://x", "Widget", "Acme", "tool", 9.99, "2024-01-01"), "t1".to_string(), 50);
    let after = c.list();
    assert_eq!(after.len(), 1);
    assert_eq!(after[0], p);
    assert_eq!(after[0].address, "http://x");
    assert_eq!(after[0].title, "Widget");
    assert_eq!(after[0].brand, "Acme");
    assert_eq!(after[0].kind, "tool");
    assert_eq!(f64::from_bits(after[0].price.bits), 9.99);
    assert_eq!(after[0].date, "2024-01-01");
    assert_eq!(after[0].original_price, None);
    assert_eq!(after[0].discount, None);
    assert_eq!(after[0].specification, None);
    assert_eq!(after[0].remark, None);
    assert_eq!(after[0].quantity, None);
    assert_eq!(after[0].unit, None);
    assert_eq!(after[0].unit_price, None);
    assert_eq!(after[0].comparison_unit, None);
    assert!(!after[0].created_at.is_empty());
}

#[test]
fn list_orders_newest_creation_first() {
    let mut c = Catalog::new();
    let p1 = c.insert(input("a", "first", "b", "k", 1.0, "d"), "t1".to_string(), 100);
    let p2 = c.insert(input("a", "second", "b", "k", 2.0, "d"), "t2".to_string(), 300);
    let p3 = c.insert(input("a", "third", "b", "k", 3.0, "d"), "t3".to_string(), 200);
    let l = c.list();
    assert_eq!(l.len(), 3);
    assert_eq!(l[0].id, p2.id);
    assert_eq!(l[1].id, p3.id);
    assert_eq!(l[2].id, p1.id);
}

#[test]
fn list_keeps_insertion_order_on_equal_seconds() {
    let mut c = Catalog::new();
    let p1 = c.insert(input("a", "first", "b", "k", 1.0, "d"), "t".to_string(), 100);
    let p2 = c.insert(input("a", "second", "b", "k", 2.0, "d"), "t".to_string(), 100);
    let l = c.list();
    assert_eq!(l.len(), 2);
    assert_eq!(l[0].id, p1.id);
    assert_eq!(l[1].id, p2.id);
}

#[test]
fn update_replaces_fields_but_keeps_identity_and_timestamp() {
    let mut c = Catalog::new();
    let p = c.insert(input("a", "old", "b", "k", 1.0, "d"), "stamp".to_string(), 100);
    let mut newer = input("a2", "new", "b2", "k2", 2.5, "d2");
    newer.remark = Some("note".to_string());
    let q = c.update(p.id, newer).unwrap();
    assert_eq!(q.id, p.id);
    assert_eq!(q.created_at, "stamp");
    assert_eq!(q.title, "new");
    assert_eq!(q.address, "a2");
    assert_eq!(q.remark, Some("note".to_string()));
    assert_eq!(f64::from_bits(q.price.bits), 2.5);
    let l = c.list();
    assert_eq!(l.len(), 1);
    assert_eq!(l[0], q);
}

#[test]
fn update_of_missing_id_is_not_found_and_changes_nothing() {
    let mut c = Catalog::new();
    let p = c.insert(input("a", "t", "b", "k", 1.0, "d"), "t1".to_string(), 1);
    let r = c.update(99, input("x", "x", "x", "x", 0.0, "x"));
    assert_eq!(r, Err(StoreError::NotFound));
    let l = c.list();
    assert_eq!(l.len(), 1);
    assert_eq!(l[0], p);
}

#[test]
fn delete_removes_and_is_idempotent() {
    let mut c = Catalog::new();
    let p1 = c.insert(input("a", "t", "b", "k", 1.0, "d"), "t1".to_string(), 1);
    let p2 = c.insert(input("a", "t2", "b", "k", 2.0, "d"), "t2".to_string(), 2);
    c.delete(p1.id);
    let l = c.list();
    assert_eq!(l.len(), 1);
    assert!(l.iter().all(|p| p.id != p1.id));
    c.delete(p1.id);
    let l2 = c.list();
    assert_eq!(l2.len(), 1);
    assert_eq!(l2[0].id, p2.id);
}

#[test]
fn deleted_id_is_never_reassigned() {
    let mut c = Catalog::new();
    let p1 = c.insert(input("a", "t", "b", "k", 1.0, "d"), "t1".to_string(), 1);
    c.delete(p1.id);
    let p2 = c.insert(input("a", "t2", "b", "k", 2.0, "d"), "t2".to_string(), 2);
    let p3 = c.insert(input("a", "t3", "b", "k", 3.0, "d"), "t3".to_string(), 3);
    assert_ne!(p2.id, p1.id);
    assert_ne!(p3.id, p1.id);
    assert!(c.list().iter().all(|p| p.id != p1.id));
}

#[test]
fn update_leaves_other_records_and_listing_position_alone() {
    let mut c = Catalog::new();
    let p1 = c.insert(input("a", "one", "b", "k", 1.0, "d"), "t1".to_string(), 100);
    let p2 = c.insert(input("a", "two", "b", "k", 2.0, "d"), "t2".to_string(), 300);
    let p3 = c.insert(input("a", "three", "b", "k", 3.0, "d"), "t3".to_string(), 200);
    let q = c.update(p3.id, input("a", "three prime", "b", "k", 3.5, "d")).unwrap();
    let l = c.list();
    assert_eq!(l.len(), 3);
    assert_eq!(l[0], p2);
    assert_eq!(l[1], q);
    assert_eq!(l[1].title, "three prime");
    assert_eq!(l[1].created_at, p3.created_at);
    assert_eq!(l[2], p1);
}

#[test]
fn optional_fields_are_stored_independently() {
    let mut c = Catalog::new();
    let mut with_some = input("a", "t", "b", "k", 5.0, "d");
    with_some.original_price = Some(Num { bits: 6.5f64.to_bits() });
    with_some.quantity = Some(Num { bits: 2.0f64.to_bits() });
    with_some.unit = Some("kg".to_string());
    let p = c.insert(with_some, "t1".to_string(), 1);
    assert_eq!(p.original_price, Some(Num { bits: 6.5f64.to_bits() }));
    assert_eq!(p.quantity, Some(Num { bits: 2.0f64.to_bits() }));
    assert_eq!(p.unit, Some("kg".to_string()));
    assert_eq!(p.unit_price, None);
    assert_eq!(p.discount, None);
}
