use catalog_store::catalog::Catalog;
use catalog_store::errors::StoreError;
use catalog_store::product::{Num, ProductInput};
use catalog_store::state::DatabaseState;

fn widget(address: &str, title: &str, brand: &str, kind: &str, price: f64, date: &str) -> ProductInput {
    ProductInput {
        address: address.to_string(),
        title: title.to_string(),
        brand: brand.to_string(),
        kind: kind.to_string(),
        price: Num { bits: price.to_bits() },
        original_price: None,
        discount: None,
        specification: None,
        date: date.to_string(),
        remark: None,
        quantity: None,
        unit: None,
        unit_price: None,
        comparison_unit: None,
    }
}

#[test]
fn end_to_end_insert_and_list() {
    let mut store = DatabaseState::new("products.db".to_string());
    let first = store.save_product(widget(
        "http://example.com/x",
        "Widget",
        "Acme",
        "tool",
        9.99,
        "2024-01-01",
    ));
    assert_eq!(first.id, 1);
    assert!(!first.created_at.is_empty());
    assert_eq!(first.address, "http://example.com/x");
    assert_eq!(first.title, "Widget");
    assert_eq!(first.brand, "Acme");
    assert_eq!(first.kind, "tool");
    assert_eq!(f64::from_bits(first.price.bits), 9.99);
    assert_eq!(first.date, "2024-01-01");
    assert_eq!(first.original_price, None);
    assert_eq!(first.discount, None);
    assert_eq!(first.specification, None);
    assert_eq!(first.remark, None);
    assert_eq!(first.quantity, None);
    assert_eq!(first.unit, None);
    assert_eq!(first.unit_price, None);
    assert_eq!(first.comparison_unit, None);
    let second = store.save_product(widget(
        "http://example.com/y",
        "Widget Two",
        "Acme",
        "tool",
        19.99,
        "2024-01-02",
    ));
    assert_eq!(second.id, 2);
    let listing = store.get_products();
    assert_eq!(listing.len(), 2);
    assert!(listing.iter().any(|p| p.id == 1));
    assert!(listing.iter().any(|p| p.id == 2));
    // Both inserts may fall within the same clock second; the listing
    // order across distinct creation times is checked below with the
    // timestamps made explicit.
}

#[test]
fn listing_is_in_descending_creation_order() {
    let mut store = DatabaseState::new("products.db".to_string());
    let first = store.catalog.insert(
        widget("http://example.com/x", "Widget", "Acme", "tool", 9.99, "2024-01-01"),
        "2024-01-01 08:00:00".to_string(),
        1_704_096_000,
    );
    let second = store.catalog.insert(
        widget("http://example.com/y", "Widget Two", "Acme", "tool", 19.99, "2024-01-02"),
        "2024-01-02 08:00:00".to_string(),
        1_704_182_400,
    );
    assert_eq!(first.id, 1);
    assert_eq!(second.id, 2);
    let listing = store.get_products();
    assert_eq!(listing.len(), 2);
    assert_eq!(listing[0].id, 2);
    assert_eq!(listing[1].id, 1);
}

#[test]
fn update_and_delete_through_the_store() {
    let mut store = DatabaseState::new("products.db".to_string());
    let p = store.save_product(widget("a", "t", "b", "k", 1.0, "d"));
    let q = store.update_product(p.id, widget("a2", "t2", "b2", "k2", 2.0, "d2")).unwrap();
    assert_eq!(q.id, p.id);
    assert_eq!(q.created_at, p.created_at);
    assert_eq!(q.title, "t2");
    assert_eq!(store.update_product(999, widget("x", "x", "x", "x", 0.0, "x")), Err(StoreError::NotFound));
    store.delete_product(p.id);
    assert!(store.get_products().is_empty());
    store.delete_product(p.id);
    assert!(store.get_products().is_empty());
}

#[test]
fn path_resolution_prefers_configuration() {
    let r = DatabaseState::get_default_db_path(
        Some("/custom/store.db".to_string()),
        Some("/home/user/.local/share/app".to_string()),
        "/work".to_string(),
    );
    assert_eq!(r, "/custom/store.db");
}

#[test]
fn path_resolution_ignores_empty_configuration() {
    let r = DatabaseState::get_default_db_path(
        Some(String::new()),
        Some("/home/user/.local/share/app".to_string()),
        "/work".to_string(),
    );
    assert_eq!(r, "/home/user/.local/share/app/products.db");
}

#[test]
fn path_resolution_falls_back_to_working_directory() {
    let r = DatabaseState::get_default_db_path(None, None, "/work".to_string());
    assert_eq!(r, "/work/products.db");
}

#[test]
fn set_path_switches_store_atomically() {
    let mut store = DatabaseState::new("old.db".to_string());
    store.save_product(widget("a", "old data", "b", "k", 1.0, "d"));
    assert_eq!(store.get_database_path(), "old.db");
    let fresh = Catalog::new();
    let returned = store.set_database_path("new.db".to_string(), fresh);
    assert_eq!(returned, "new.db");
    assert_eq!(store.get_database_path(), "new.db");
    assert!(store.get_products().is_empty());
    let p = store.save_product(widget("a", "new data", "b", "k", 2.0, "d"));
    assert_eq!(p.id, 1);
    let listing = store.get_products();
    assert_eq!(listing.len(), 1);
    assert_eq!(listing[0].title, "new data");
}

#[test]
fn error_messages_are_descriptive() {
    assert_eq!(StoreError::StorageUnavailable.message(), "storage location unavailable");
    assert_eq!(StoreError::MigrationError.message(), "schema migration failed");
    assert_eq!(StoreError::NotFound.message(), "no record with the given id");
    assert_eq!(StoreError::ConnectionError.message(), "database operation failed");
    assert_eq!(StoreError::LockError.message(), "store lock poisoned");
}
