//! Additive schema evolution, planned from an introspected column list.
//!
//! Given the column names a storage file's product table currently has
//! (empty when the table does not exist yet), the planner decides which
//! statements bring the table to the current schema: create it outright,
//! apply the one legacy rename of the old location column to `address`,
//! and add whichever later nullable columns are still missing. The plan
//! can only create, rename or add — it has no way to express dropping a
//! column or touching rows — and a second run plans nothing, so running
//! the migrator twice leaves the same schema as running it once.

use vstd::prelude::*;

verus! {

/// The views of a list of column names.
pub open spec fn col_views(cols: Seq<String>) -> Seq<Seq<char>> {
    cols.map_values(|s: String| s@)
}

/// Whether the list `cols` holds the column name `c`.
pub open spec fn col_in(cols: Seq<Seq<char>>, c: Seq<char>) -> bool {
    cols.contains(c)
}

/// Every column of the current schema, in declaration order.
pub open spec fn full_columns() -> Seq<Seq<char>> {
    seq![
        "id"@,
        "address"@,
        "title"@,
        "brand"@,
        "type"@,
        "price"@,
        "original_price"@,
        "discount"@,
        "specification"@,
        "date"@,
        "remark"@,
        "quantity"@,
        "unit"@,
        "unit_price"@,
        "comparison_unit"@,
        "created_at"@,
    ]
}

/// The nullable columns that later schema versions added.
pub open spec fn additive_columns() -> Seq<Seq<char>> {
    seq!["original_price"@, "discount"@, "quantity"@, "unit"@, "unit_price"@, "comparison_unit"@]
}

/// A fresh file has no product table, so no columns at all.
pub open spec fn needs_create(existing: Seq<Seq<char>>) -> bool {
    existing.len() == 0
}

/// A legacy table still calls the address column by its old name `url`
/// (and has no `address` column the rename could collide with).
pub open spec fn needs_rename(existing: Seq<Seq<char>>) -> bool {
    existing.len() > 0 && col_in(existing, "url"@) && !col_in(existing, "address"@)
}

/// The column list after the legacy rename; positions are untouched.
pub open spec fn renamed(existing: Seq<Seq<char>>) -> Seq<Seq<char>> {
    if needs_rename(existing) {
        existing.map_values(
            |c: Seq<char>|
                if c == "url"@ {
                    "address"@
                } else {
                    c
                },
        )
    } else {
        existing
    }
}

/// The members of `cands` that `have` lacks, in `cands` order.
pub open spec fn missing_from(cands: Seq<Seq<char>>, have: Seq<Seq<char>>) -> Seq<Seq<char>>
    decreases cands.len(),
{
    if cands.len() == 0 {
        Seq::<Seq<char>>::empty()
    } else {
        let rest = missing_from(cands.drop_last(), have);
        if have.contains(cands.last()) {
            rest
        } else {
            rest.push(cands.last())
        }
    }
}

/// The additive columns one migration run will add.
pub open spec fn missing_columns(existing: Seq<Seq<char>>) -> Seq<Seq<char>> {
    if needs_create(existing) {
        Seq::<Seq<char>>::empty()
    } else {
        missing_from(additive_columns(), renamed(existing))
    }
}

/// The column set after one full migration run.
pub open spec fn migrated(existing: Seq<Seq<char>>) -> Seq<Seq<char>> {
    if needs_create(existing) {
        full_columns()
    } else {
        renamed(existing) + missing_columns(existing)
    }
}

/// The statements one migration run issues, in order: create the table
/// with the full current schema, or else possibly rename the legacy
/// location column, then add each still-missing later column.
#[derive(Debug)]
pub struct MigrationPlan {
    pub create_table: bool,
    pub rename_url_to_address: bool,
    pub add_columns: Vec<String>,
}

impl MigrationPlan {
    /// The plan `existing` calls for.
    pub open spec fn is_plan_for(self, existing: Seq<Seq<char>>) -> bool {
        &&& self.create_table == needs_create(existing)
        &&& self.rename_url_to_address == needs_rename(existing)
        &&& col_views(self.add_columns@) == missing_columns(existing)
    }
}

/// The ground facts the migration laws rest on: how the schema's column
/// names relate to one another and to the legacy name.
pub proof fn lemma_schema_facts()
    ensures
        full_columns().len() == 16,
        additive_columns().len() == 6,
        !col_in(full_columns(), "url"@),
        !col_in(additive_columns(), "url"@),
        "url"@ != "address"@,
        forall|c: Seq<char>| col_in(additive_columns(), c) ==> col_in(full_columns(), c),
        col_in(full_columns(), "address"@),
{
    reveal_strlit("id");
    reveal_strlit("address");
    reveal_strlit("title");
    reveal_strlit("brand");
    reveal_strlit("type");
    reveal_strlit("price");
    reveal_strlit("original_price");
    reveal_strlit("discount");
    reveal_strlit("specification");
    reveal_strlit("date");
    reveal_strlit("remark");
    reveal_strlit("quantity");
    reveal_strlit("unit");
    reveal_strlit("unit_price");
    reveal_strlit("comparison_unit");
    reveal_strlit("created_at");
    reveal_strlit("url");
    assert forall|k: int| 0 <= k < 16 implies full_columns()[k] != "url"@ by {
        if k == 0 {
            assert(full_columns()[k] == "id"@);
            assert("id"@.len() == 2 && "url"@.len() == 3);
        } else if k == 1 {
            assert(full_columns()[k] == "address"@);
            assert("address"@.len() == 7);
        } else if k == 2 {
            assert(full_columns()[k] == "title"@);
            assert("title"@.len() == 5);
        } else if k == 3 {
            assert(full_columns()[k] == "brand"@);
            assert("brand"@.len() == 5);
        } else if k == 4 {
            assert(full_columns()[k] == "type"@);
            assert("type"@.len() == 4);
        } else if k == 5 {
            assert(full_columns()[k] == "price"@);
            assert("price"@.len() == 5);
        } else if k == 6 {
            assert(full_columns()[k] == "original_price"@);
            assert("original_price"@.len() == 14);
        } else if k == 7 {
            assert(full_columns()[k] == "discount"@);
            assert("discount"@.len() == 8);
        } else if k == 8 {
            assert(full_columns()[k] == "specification"@);
            assert("specification"@.len() == 13);
        } else if k == 9 {
            assert(full_columns()[k] == "date"@);
            assert("date"@.len() == 4);
        } else if k == 10 {
            assert(full_columns()[k] == "remark"@);
            assert("remark"@.len() == 6);
        } else if k == 11 {
            assert(full_columns()[k] == "quantity"@);
            assert("quantity"@.len() == 8);
        } else if k == 12 {
            assert(full_columns()[k] == "unit"@);
            assert("unit"@.len() == 4);
        } else if k == 13 {
            assert(full_columns()[k] == "unit_price"@);
            assert("unit_price"@.len() == 10);
        } else if k == 14 {
            assert(full_columns()[k] == "comparison_unit"@);
            assert("comparison_unit"@.len() == 15);
        } else {
            assert(full_columns()[k] == "created_at"@);
            assert("created_at"@.len() == 10);
        }
    }
    assert forall|k: int| 0 <= k < 6 implies additive_columns()[k] != "url"@ by {
        if k == 0 {
            assert(additive_columns()[k] == "original_price"@);
        } else if k == 1 {
            assert(additive_columns()[k] == "discount"@);
        } else if k == 2 {
            assert(additive_columns()[k] == "quantity"@);
        } else if k == 3 {
            assert(additive_columns()[k] == "unit"@);
        } else if k == 4 {
            assert(additive_columns()[k] == "unit_price"@);
        } else {
            assert(additive_columns()[k] == "comparison_unit"@);
        }
        assert("url"@.len() == 3);
    }
    assert forall|c: Seq<char>| col_in(additive_columns(), c) implies col_in(
        full_columns(),
        c,
    ) by {
        let k = choose|k: int| 0 <= k < additive_columns().len() && additive_columns()[k] == c;
        if k == 0 {
            assert(full_columns()[6] == c);
        } else if k == 1 {
            assert(full_columns()[7] == c);
        } else if k == 2 {
            assert(full_columns()[11] == c);
        } else if k == 3 {
            assert(full_columns()[12] == c);
        } else if k == 4 {
            assert(full_columns()[13] == c);
        } else {
            assert(full_columns()[14] == c);
        }
    }
    assert(full_columns()[1] == "address"@);
}

/// A name lies in a concatenation exactly when it lies in one part.
pub proof fn lemma_col_in_concat(a: Seq<Seq<char>>, b: Seq<Seq<char>>, c: Seq<char>)
    ensures
        col_in(a + b, c) <==> (col_in(a, c) || col_in(b, c)),
{
    if col_in(a + b, c) {
        let j = choose|j: int| 0 <= j < (a + b).len() && (a + b)[j] == c;
        if j < a.len() {
            assert(a[j] == c);
        } else {
            assert(b[j - a.len()] == c);
        }
    }
    if col_in(a, c) {
        let j = choose|j: int| 0 <= j < a.len() && a[j] == c;
        assert((a + b)[j] == c);
    }
    if col_in(b, c) {
        let j = choose|j: int| 0 <= j < b.len() && b[j] == c;
        assert((a + b)[a.len() + j] == c);
    }
}

/// What `missing_from` holds: members of `cands` absent from `have`, and
/// all of them.
pub proof fn lemma_missing_from(cands: Seq<Seq<char>>, have: Seq<Seq<char>>)
    ensures
        forall|k: int|
            0 <= k < missing_from(cands, have).len() ==> cands.contains(
                #[trigger] missing_from(cands, have)[k],
            ) && !have.contains(missing_from(cands, have)[k]),
        forall|x: Seq<char>|
            cands.contains(x) && !have.contains(x) ==> missing_from(cands, have).contains(x),
    decreases cands.len(),
{
    if cands.len() > 0 {
        lemma_missing_from(cands.drop_last(), have);
        let rest = missing_from(cands.drop_last(), have);
        let whole = missing_from(cands, have);
        assert forall|k: int| 0 <= k < whole.len() implies cands.contains(#[trigger] whole[k])
            && !have.contains(whole[k]) by {
            if k < rest.len() {
                assert(cands.drop_last().contains(rest[k]));
                let j = choose|j: int|
                    0 <= j < cands.drop_last().len() && cands.drop_last()[j] == rest[k];
                assert(cands[j] == whole[k]);
            } else {
                assert(whole[k] == cands.last());
                assert(cands[cands.len() - 1] == whole[k]);
            }
        }
        assert forall|x: Seq<char>| cands.contains(x) && !have.contains(x) implies whole.contains(
            x,
        ) by {
            let j = choose|j: int| 0 <= j < cands.len() && cands[j] == x;
            if j < cands.len() - 1 {
                assert(cands.drop_last()[j] == x);
                assert(rest.contains(x));
                let t = choose|t: int| 0 <= t < rest.len() && rest[t] == x;
                assert(whole[t] == x);
            } else {
                assert(x == cands.last());
                assert(whole[whole.len() - 1] == x);
            }
        }
    }
}

/// Migration never loses a column: every existing column survives, the
/// legacy location column surviving under its new name when renamed.
pub proof fn lemma_migrate_preserves(e: Seq<Seq<char>>)
    ensures
        forall|c: Seq<char>| col_in(e, c) && c != "url"@ ==> col_in(migrated(e), c),
        col_in(e, "url"@) && !col_in(e, "address"@) ==> col_in(migrated(e), "address"@),
        col_in(e, "url"@) && col_in(e, "address"@) ==> col_in(migrated(e), "url"@) && col_in(
            migrated(e),
            "address"@,
        ),
{
    if e.len() > 0 {
        let rn = renamed(e);
        let mc = missing_columns(e);
        assert forall|c: Seq<char>| col_in(e, c) && c != "url"@ implies col_in(
            migrated(e),
            c,
        ) by {
            let j = choose|j: int| 0 <= j < e.len() && e[j] == c;
            if needs_rename(e) {
                assert(rn[j] == c);
            } else {
                assert(rn[j] == c);
            }
            assert(rn.contains(c));
            lemma_col_in_concat(rn, mc, c);
        }
        if col_in(e, "url"@) && !col_in(e, "address"@) {
            let j = choose|j: int| 0 <= j < e.len() && e[j] == "url"@;
            assert(rn[j] == "address"@);
            assert(rn.contains("address"@));
            lemma_col_in_concat(rn, mc, "address"@);
        }
        if col_in(e, "url"@) && col_in(e, "address"@) {
            assert(!needs_rename(e));
            let j = choose|j: int| 0 <= j < e.len() && e[j] == "url"@;
            assert(rn[j] == "url"@);
            assert(rn.contains("url"@));
            lemma_col_in_concat(rn, mc, "url"@);
            let t = choose|t: int| 0 <= t < e.len() && e[t] == "address"@;
            assert(rn[t] == "address"@);
            assert(rn.contains("address"@));
            lemma_col_in_concat(rn, mc, "address"@);
        }
    }
}

/// A second migration run has nothing left to do: the table exists, no
/// legacy rename applies, and no additive column is missing.
pub proof fn lemma_second_run_plans_nothing(e: Seq<Seq<char>>)
    ensures
        !needs_create(migrated(e)),
        !needs_rename(migrated(e)),
        missing_columns(migrated(e)) == Seq::<Seq<char>>::empty(),
{
    lemma_schema_facts();
    let m = migrated(e);
    if needs_create(e) {
        assert(m == full_columns());
        assert(!col_in(m, "url"@));
        assert(!needs_rename(m));
        lemma_missing_from(additive_columns(), m);
        if missing_from(additive_columns(), m).len() > 0 {
            let x = missing_from(additive_columns(), m)[0];
            assert(additive_columns().contains(x) && !m.contains(x));
            assert(col_in(full_columns(), x));
        }
        assert(missing_columns(m) =~= Seq::<Seq<char>>::empty());
    } else {
        let rn = renamed(e);
        let mc = missing_columns(e);
        assert(rn.len() == e.len());
        assert(m.len() >= e.len());
        assert(!needs_create(m));
        lemma_missing_from(additive_columns(), rn);
        assert(!col_in(mc, "url"@)) by {
            if col_in(mc, "url"@) {
                let k = choose|k: int| 0 <= k < mc.len() && mc[k] == "url"@;
                assert(additive_columns().contains(mc[k]));
            }
        }
        if needs_rename(e) {
            assert(!col_in(rn, "url"@)) by {
                if col_in(rn, "url"@) {
                    let k = choose|k: int| 0 <= k < rn.len() && rn[k] == "url"@;
                    assert(rn[k] == (if e[k] == "url"@ {
                        "address"@
                    } else {
                        e[k]
                    }));
                }
            }
            lemma_col_in_concat(rn, mc, "url"@);
            assert(!col_in(m, "url"@));
            assert(!needs_rename(m));
        } else {
            if col_in(e, "address"@) {
                lemma_col_in_concat(rn, mc, "address"@);
                assert(col_in(m, "address"@));
                assert(!needs_rename(m));
            } else {
                assert(!col_in(e, "url"@));
                lemma_col_in_concat(rn, mc, "url"@);
                assert(!col_in(m, "url"@));
                assert(!needs_rename(m));
            }
        }
        lemma_missing_from(additive_columns(), m);
        if missing_from(additive_columns(), m).len() > 0 {
            let x = missing_from(additive_columns(), m)[0];
            assert(additive_columns().contains(x) && !m.contains(x));
            if rn.contains(x) {
                lemma_col_in_concat(rn, mc, x);
            } else {
                assert(mc.contains(x));
                lemma_col_in_concat(rn, mc, x);
            }
        }
        assert(missing_columns(m) =~= Seq::<Seq<char>>::empty());
    }
}

/// Running the migrator twice gives the very schema one run gives.
pub proof fn lemma_migrate_idempotent(e: Seq<Seq<char>>)
    ensures
        migrated(migrated(e)) == migrated(e),
{
    lemma_second_run_plans_nothing(e);
    let m = migrated(e);
    assert(renamed(m) == m);
    assert(migrated(m) == m + Seq::<Seq<char>>::empty());
    assert(m + Seq::<Seq<char>>::empty() =~= m);
}

/// Migrating a legacy table renames its location column in place: every
/// column keeps its position, `url` alone now reading `address`.
pub proof fn lemma_legacy_rename(e: Seq<Seq<char>>)
    requires
        e.len() > 0,
        col_in(e, "url"@),
        !col_in(e, "address"@),
    ensures
        migrated(e).len() >= e.len(),
        forall|i: int|
            0 <= i < e.len() ==> migrated(e)[i] == (if e[i] == "url"@ {
                "address"@
            } else {
                e[i]
            }),
        col_in(migrated(e), "address"@),
        !col_in(migrated(e), "url"@),
{
    lemma_schema_facts();
    lemma_migrate_preserves(e);
    let rn = renamed(e);
    let mc = missing_columns(e);
    assert(needs_rename(e));
    assert forall|i: int| 0 <= i < e.len() implies migrated(e)[i] == (if e[i] == "url"@ {
        "address"@
    } else {
        e[i]
    }) by {
        assert(migrated(e)[i] == rn[i]);
    }
    lemma_missing_from(additive_columns(), rn);
    assert(!col_in(mc, "url"@)) by {
        if col_in(mc, "url"@) {
            let k = choose|k: int| 0 <= k < mc.len() && mc[k] == "url"@;
            assert(additive_columns().contains(mc[k]));
        }
    }
    assert(!col_in(rn, "url"@)) by {
        if col_in(rn, "url"@) {
            let k = choose|k: int| 0 <= k < rn.len() && rn[k] == "url"@;
            assert(rn[k] == (if e[k] == "url"@ {
                "address"@
            } else {
                e[k]
            }));
        }
    }
    lemma_col_in_concat(rn, mc, "url"@);
}

/// One run on any table that still has its original columns (under the
/// current or the legacy location name) yields every current column.
pub proof fn lemma_migrate_completes(e: Seq<Seq<char>>)
    requires
        e.len() > 0,
        col_in(e, "id"@),
        col_in(e, "title"@),
        col_in(e, "brand"@),
        col_in(e, "type"@),
        col_in(e, "price"@),
        col_in(e, "specification"@),
        col_in(e, "date"@),
        col_in(e, "remark"@),
        col_in(e, "created_at"@),
        col_in(e, "address"@) || col_in(e, "url"@),
    ensures
        forall|c: Seq<char>| col_in(full_columns(), c) ==> col_in(migrated(e), c),
{
    lemma_schema_facts();
    lemma_migrate_preserves(e);
    let rn = renamed(e);
    let mc = missing_columns(e);
    lemma_missing_from(additive_columns(), rn);
    assert forall|c: Seq<char>| col_in(full_columns(), c) implies col_in(migrated(e), c) by {
        let k = choose|k: int| 0 <= k < full_columns().len() && full_columns()[k] == c;
        assert(c != "url"@);
        if k == 6 || k == 7 || k == 11 || k == 12 || k == 13 || k == 14 {
            if k == 6 {
                assert(additive_columns()[0] == c);
            } else if k == 7 {
                assert(additive_columns()[1] == c);
            } else if k == 11 {
                assert(additive_columns()[2] == c);
            } else if k == 12 {
                assert(additive_columns()[3] == c);
            } else if k == 13 {
                assert(additive_columns()[4] == c);
            } else {
                assert(additive_columns()[5] == c);
            }
            assert(additive_columns().contains(c));
            if rn.contains(c) {
                lemma_col_in_concat(rn, mc, c);
            } else {
                assert(mc.contains(c));
                lemma_col_in_concat(rn, mc, c);
            }
        } else if k == 1 {
            if col_in(e, "address"@) {
                assert(col_in(migrated(e), c));
            } else {
                assert(col_in(e, "url"@) && !col_in(e, "address"@));
                assert(col_in(migrated(e), "address"@));
            }
        } else {
            assert(col_in(e, c));
            assert(col_in(migrated(e), c));
        }
    }
}

fn contains_col(cols: &Vec<String>, name: &String) -> (b: bool)
    ensures
        b == col_in(col_views(cols@), name@),
{
    let n = cols.len();
    let mut i: usize = 0;
    while i < n
        invariant
            i <= n,
            n == cols@.len(),
            forall|k: int| 0 <= k < i ==> col_views(cols@)[k] != name@,
        decreases n - i,
    {
        if cols[i] == *name {
            proof {
                assert(col_views(cols@)[i as int] == name@);
            }
            return true;
        }
        i += 1;
    }
    proof {
        assert forall|k: int| 0 <= k < cols@.len() implies col_views(cols@)[k] != name@ by {}
    }
    false
}

/// The column names of the current full schema, in declaration order.
pub fn current_columns() -> (r: Vec<String>)
    ensures
        col_views(r@) == full_columns(),
{
    let mut r: Vec<String> = Vec::new();
    r.push(String::from_str("id"));
    r.push(String::from_str("address"));
    r.push(String::from_str("title"));
    r.push(String::from_str("brand"));
    r.push(String::from_str("type"));
    r.push(String::from_str("price"));
    r.push(String::from_str("original_price"));
    r.push(String::from_str("discount"));
    r.push(String::from_str("specification"));
    r.push(String::from_str("date"));
    r.push(String::from_str("remark"));
    r.push(String::from_str("quantity"));
    r.push(String::from_str("unit"));
    r.push(String::from_str("unit_price"));
    r.push(String::from_str("comparison_unit"));
    r.push(String::from_str("created_at"));
    proof {
        assert(col_views(r@) =~= full_columns());
    }
    r
}

/// The names of the later additive columns, in declaration order.
pub fn additive_column_names() -> (r: Vec<String>)
    ensures
        col_views(r@) == additive_columns(),
{
    let mut r: Vec<String> = Vec::new();
    r.push(String::from_str("original_price"));
    r.push(String::from_str("discount"));
    r.push(String::from_str("quantity"));
    r.push(String::from_str("unit"));
    r.push(String::from_str("unit_price"));
    r.push(String::from_str("comparison_unit"));
    proof {
        assert(col_views(r@) =~= additive_columns());
    }
    r
}

/// The column list after the legacy rename this table calls for, if any.
pub fn renamed_columns(existing: &Vec<String>) -> (r: Vec<String>)
    ensures
        col_views(r@) == renamed(col_views(existing@)),
{
    let url = String::from_str("url");
    let address = String::from_str("address");
    let do_rename = existing.len() > 0 && contains_col(existing, &url) && !contains_col(
        existing,
        &address,
    );
    proof {
        reveal_strlit("url");
        reveal_strlit("address");
        assert(do_rename == needs_rename(col_views(existing@)));
    }
    let n = existing.len();
    let mut r: Vec<String> = Vec::new();
    let mut i: usize = 0;
    while i < n
        invariant
            i <= n,
            n == existing@.len(),
            url@ == "url"@,
            address@ == "address"@,
            do_rename == needs_rename(col_views(existing@)),
            col_views(r@) == renamed(col_views(existing@)).take(i as int),
        decreases n - i,
    {
        proof {
            assert(col_views(r@).len() == r@.len());
            assert(renamed(col_views(existing@)).len() == n);
            assert(renamed(col_views(existing@)).take(i as int).len() == i as int);
            assert(r@.len() == i as int);
        }
        if do_rename && existing[i] == url {
            r.push(address.clone());
        } else {
            r.push(existing[i].clone());
        }
        proof {
            let rn = renamed(col_views(existing@));
            assert(forall|k: int| 0 <= k < i ==> col_views(r@)[k] == rn.take(i + 1)[k]);
            assert(col_views(r@)[i as int] == rn[i as int]);
            assert(col_views(r@) =~= rn.take(i + 1));
        }
        i += 1;
    }
    proof {
        assert(renamed(col_views(existing@)).take(n as int) =~= renamed(col_views(existing@)));
    }
    r
}

/// The plan that brings a table with the given columns to the current
/// schema. An empty column list means the table does not exist.
pub fn migration_plan(existing: &Vec<String>) -> (p: MigrationPlan)
    ensures
        p.is_plan_for(col_views(existing@)),
{
    let url = String::from_str("url");
    let address = String::from_str("address");
    let create = existing.len() == 0;
    let rename = existing.len() > 0 && contains_col(existing, &url) && !contains_col(
        existing,
        &address,
    );
    proof {
        reveal_strlit("url");
        reveal_strlit("address");
    }
    if create {
        let p = MigrationPlan {
            create_table: true,
            rename_url_to_address: false,
            add_columns: Vec::new(),
        };
        proof {
            assert(col_views(p.add_columns@) =~= missing_columns(col_views(existing@)));
        }
        return p;
    }
    let eff = renamed_columns(existing);
    let cands = additive_column_names();
    let m = cands.len();
    let mut missing: Vec<String> = Vec::new();
    let mut i: usize = 0;
    while i < m
        invariant
            i <= m,
            m == cands@.len(),
            col_views(cands@) == additive_columns(),
            col_views(eff@) == renamed(col_views(existing@)),
            col_views(missing@) == missing_from(
                additive_columns().take(i as int),
                renamed(col_views(existing@)),
            ),
        decreases m - i,
    {
        proof {
            assert(additive_columns().take(i + 1).drop_last() =~= additive_columns().take(
                i as int,
            ));
            assert(additive_columns().take(i + 1).last() == col_views(cands@)[i as int]);
        }
        let have = contains_col(&eff, &cands[i]);
        if !have {
            missing.push(cands[i].clone());
            proof {
                assert(col_views(missing@) =~= missing_from(
                    additive_columns().take(i + 1),
                    renamed(col_views(existing@)),
                ));
            }
        }
        i += 1;
    }
    proof {
        assert(additive_columns().take(m as int) =~= additive_columns());
        assert(!needs_create(col_views(existing@)));
    }
    MigrationPlan { create_table: false, rename_url_to_address: rename, add_columns: missing }
}

/// The columns the table has after `plan` is carried out against it.
pub fn apply_plan(existing: &Vec<String>, plan: &MigrationPlan) -> (r: Vec<String>)
    requires
        plan.is_plan_for(col_views(existing@)),
    ensures
        col_views(r@) == migrated(col_views(existing@)),
{
    if plan.create_table {
        return current_columns();
    }
    let mut r = renamed_columns(existing);
    let m = plan.add_columns.len();
    let mut i: usize = 0;
    while i < m
        invariant
            i <= m,
            m == plan.add_columns@.len(),
            col_views(plan.add_columns@) == missing_columns(col_views(existing@)),
            col_views(r@) == renamed(col_views(existing@)) + missing_columns(
                col_views(existing@),
            ).take(i as int),
        decreases m - i,
    {
        proof {
            assert(col_views(r@).len() == r@.len());
            assert(col_views(plan.add_columns@).len() == plan.add_columns@.len());
            assert(renamed(col_views(existing@)).len() == existing@.len());
            assert(missing_columns(col_views(existing@)).len() == m);
        }
        let ghost prev = r@;
        r.push(plan.add_columns[i].clone());
        proof {
            assert(col_views(r@)[prev.len() as int] == missing_columns(col_views(existing@))[
                i as int]);
            assert forall|k: int| 0 <= k < prev.len() implies col_views(r@)[k] == col_views(
                prev,
            )[k] by {
                assert(r@[k] == prev[k]);
            }
            let ghost rn = renamed(col_views(existing@));
            let ghost mc = missing_columns(col_views(existing@));
            assert forall|k: int| 0 <= k < r@.len() implies col_views(r@)[k] == (rn + mc.take(
                i + 1,
            ))[k] by {
                if k < prev.len() {
                    assert(col_views(prev)[k] == (rn + mc.take(i as int))[k]);
                    if k < rn.len() {
                        assert((rn + mc.take(i as int))[k] == rn[k]);
                        assert((rn + mc.take(i + 1))[k] == rn[k]);
                    } else {
                        assert((rn + mc.take(i as int))[k] == mc.take(i as int)[k - rn.len()]);
                        assert((rn + mc.take(i + 1))[k] == mc.take(i + 1)[k - rn.len()]);
                        assert(mc.take(i as int)[k - rn.len()] == mc[k - rn.len()]);
                        assert(mc.take(i + 1)[k - rn.len()] == mc[k - rn.len()]);
                    }
                } else {
                    assert(k == prev.len());
                    assert((rn + mc.take(i + 1))[k] == mc.take(i + 1)[k - rn.len()]);
                    assert(mc.take(i + 1)[i as int] == mc[i as int]);
                }
            }
            assert(col_views(r@) =~= renamed(col_views(existing@)) + missing_columns(
                col_views(existing@),
            ).take(i + 1));
        }
        i += 1;
    }
    proof {
        assert(missing_columns(col_views(existing@)).take(m as int) =~= missing_columns(
            col_views(existing@),
        ));
        assert(col_views(r@) == migrated(col_views(existing@)));
    }
    r
}

} // verus!
