use catalog_store::schema::{additive_column_names, apply_plan, current_columns, migration_plan};

fn names(v: &[&str]) -> Vec<String> {
    v.iter().map(|s| s.to_string()).collect()
}

#[test]
fn fresh_file_plans_a_create_and_nothing_else() {
    let existing: Vec<String> = Vec::new();
    let plan = migration_plan(&existing);
    assert!(plan.create_table);
    assert!(!plan.rename_url_to_address);
    assert!(plan.add_columns.is_empty());
    let cols = apply_plan(&existing, &plan);
    assert_eq!(cols, current_columns());
}

#[test]
fn up_to_date_schema_plans_nothing() {
    let existing = current_columns();
    let plan = migration_plan(&existing);
    assert!(!plan.create_table);
    assert!(!plan.rename_url_to_address);
    assert!(plan.add_columns.is_empty());
    let cols = apply_plan(&existing, &plan);
    assert_eq!(cols, existing);
}

#[test]
fn migrating_twice_equals_migrating_once() {
    let legacy = names(&[
        "id", "url", "title", "brand", "type", "price", "specification", "date", "remark",
        "created_at",
    ]);
    let once = apply_plan(&legacy, &migration_plan(&legacy));
    let twice = apply_plan(&once, &migration_plan(&once));
    assert_eq!(twice, once);
}

#[test]
fn old_table_gets_each_missing_column_in_order() {
    let existing = names(&[
        "id", "address", "title", "brand", "type", "price", "specification", "date", "remark",
        "created_at",
    ]);
    let plan = migration_plan(&existing);
    assert!(!plan.create_table);
    assert!(!plan.rename_url_to_address);
    assert_eq!(plan.add_columns, additive_column_names());
    let cols = apply_plan(&existing, &plan);
    for c in current_columns() {
        assert!(cols.contains(&c));
    }
    for c in &existing {
        assert!(cols.contains(c));
    }
}

#[test]
fn partially_migrated_table_gets_only_what_it_lacks() {
    let existing = names(&[
        "id", "address", "title", "brand", "type", "price", "original_price", "discount",
        "specification", "date", "remark", "created_at",
    ]);
    let plan = migration_plan(&existing);
    assert_eq!(plan.add_columns, names(&["quantity", "unit", "unit_price", "comparison_unit"]));
}

#[test]
fn legacy_location_column_is_renamed_in_place() {
    let legacy = names(&[
        "id", "url", "title", "brand", "type", "price", "specification", "date", "remark",
        "created_at",
    ]);
    let plan = migration_plan(&legacy);
    assert!(!plan.create_table);
    assert!(plan.rename_url_to_address);
    let cols = apply_plan(&legacy, &plan);
    assert_eq!(cols[0], "id");
    assert_eq!(cols[1], "address");
    assert_eq!(cols[2], "title");
    assert_eq!(cols[9], "created_at");
    assert!(!cols.contains(&"url".to_string()));
    for c in current_columns() {
        assert!(cols.contains(&c));
    }
}

#[test]
fn rename_does_not_fire_when_address_already_exists() {
    let both = names(&[
        "id", "url", "address", "title", "brand", "type", "price", "specification", "date",
        "remark", "created_at",
    ]);
    let plan = migration_plan(&both);
    assert!(!plan.rename_url_to_address);
    let cols = apply_plan(&both, &plan);
    assert!(cols.contains(&"url".to_string()));
    assert!(cols.contains(&"address".to_string()));
}
