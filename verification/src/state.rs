//! The store's top level: the resolved storage path, the catalog kept
//! there, and the operations the host application invokes.
//!
//! The host guards one `DatabaseState` behind one exclusive lock and
//! acquires it for every operation; within this crate that exclusive
//! access is the `&mut self` of each mutating operation, so no caller
//! can observe an operation's intermediate state. Reconfiguration swaps
//! the path and the records in one step: the store never points at a
//! location whose records it does not hold.

use vstd::prelude::*;
use crate::catalog::{Catalog, Row, has_id, index_of_id, list_spec, remove_id};
use crate::clock::{epoch_seconds, format_timestamp, timestamp_seq};
use crate::errors::StoreError;
use crate::product::{matches_input, product_of, Product, ProductInput};

verus! {

/// The view of an optional string.
pub open spec fn opt_view(o: Option<String>) -> Option<Seq<char>> {
    match o {
        Some(p) => Some(p@),
        None => None,
    }
}

/// The storage location when nothing is configured: the given directory,
/// or failing that the working directory, with the standard file name.
pub open spec fn fallback_path(app_data_dir: Option<Seq<char>>, cwd: Seq<char>) -> Seq<char> {
    match app_data_dir {
        Some(d) => d + "/products.db"@,
        None => cwd + "/products.db"@,
    }
}

/// Where the store's backing file lives, in priority order: a non-empty
/// configured path verbatim; else the per-user data directory; else the
/// working directory as the last resort. Every case yields a path.
pub open spec fn resolved_path(
    configured: Option<Seq<char>>,
    app_data_dir: Option<Seq<char>>,
    cwd: Seq<char>,
) -> Seq<char> {
    match configured {
        Some(p) => if p.len() > 0 {
            p
        } else {
            fallback_path(app_data_dir, cwd)
        },
        None => fallback_path(app_data_dir, cwd),
    }
}

/// The live store: the path of the backing file and the records kept
/// there.
#[derive(Debug)]
pub struct DatabaseState {
    pub db_path: String,
    pub catalog: Catalog,
}

impl DatabaseState {
    pub open spec fn wf(self) -> bool {
        self.catalog.wf()
    }

    /// A store freshly opened at `db_path`, holding nothing yet; its
    /// first record will get identity 1.
    pub fn new(db_path: String) -> (s: DatabaseState)
        ensures
            s.wf(),
            s.db_path == db_path,
            s.catalog.rows@ == Seq::<Row>::empty(),
            s.catalog.next_id == 1,
    {
        DatabaseState { db_path: db_path, catalog: Catalog::new() }
    }

    /// The storage path the store should use, given the configured
    /// override (if any), the per-user data directory (if the host
    /// environment exposes one), and the working directory.
    pub fn get_default_db_path(
        configured: Option<String>,
        app_data_dir: Option<String>,
        cwd: String,
    ) -> (r: String)
        ensures
            r@ == resolved_path(opt_view(configured), opt_view(app_data_dir), cwd@),
    {
        match configured {
            Some(p) => {
                if !p.as_str().is_empty() {
                    return p;
                }
            },
            None => {},
        }
        match app_data_dir {
            Some(d) => d.concat("/products.db"),
            None => cwd.concat("/products.db"),
        }
    }

    /// Writes a new record: every field of the input as given, under the
    /// next identity, stamped with the clock reading taken during the
    /// call. Returns the record exactly as persisted.
    pub fn save_product(&mut self, product: ProductInput) -> (p: Product)
        requires
            old(self).wf(),
            old(self).catalog.next_id < i64::MAX,
        ensures
            final(self).wf(),
            final(self).db_path == old(self).db_path,
            final(self).catalog.next_id == old(self).catalog.next_id + 1,
            p.id == old(self).catalog.next_id,
            matches_input(p, product),
            p.created_at@.len() > 0,
            exists|s: u64|
                p.created_at@ == timestamp_seq(s) && final(self).catalog.rows@ == old(
                    self,
                ).catalog.rows@.push((Row { product: p, created_secs: s })),
    {
        let secs = epoch_seconds();
        let created_at = format_timestamp(secs);
        let p = self.catalog.insert(product, created_at, secs);
        proof {
            assert(p.created_at@ == timestamp_seq(secs) && self.catalog.rows@ == old(
                self,
            ).catalog.rows@.push((Row { product: p, created_secs: secs })));
        }
        p
    }

    /// Every record, most recently created first; a point-in-time
    /// snapshot.
    pub fn get_products(&self) -> (r: Vec<Product>)
        ensures
            r@ == list_spec(self.catalog.rows@),
    {
        self.catalog.list()
    }

    /// Replaces the mutable fields of the record carrying `id` with the
    /// input's; the record's identity and creation timestamp survive.
    /// Returns `NotFound`, with the store untouched, exactly when no
    /// record carries `id`.
    pub fn update_product(&mut self, id: i64, product: ProductInput) -> (r: Result<
        Product,
        StoreError,
    >)
        requires
            old(self).wf(),
        ensures
            final(self).wf(),
            final(self).db_path == old(self).db_path,
            final(self).catalog.next_id == old(self).catalog.next_id,
            r is Ok <==> has_id(old(self).catalog.rows@, id),
            r matches Ok(p) ==> ({
                let i = index_of_id(old(self).catalog.rows@, id);
                &&& 0 <= i < old(self).catalog.rows@.len()
                &&& old(self).catalog.rows@[i].product.id == id
                &&& p == product_of(product, id, old(self).catalog.rows@[i].product.created_at)
                &&& final(self).catalog.rows@ == old(self).catalog.rows@.update(
                    i,
                    Row { product: p, created_secs: old(self).catalog.rows@[i].created_secs },
                )
            }),
            r is Err ==> r == Result::<Product, StoreError>::Err(StoreError::NotFound)
                && *final(self) == *old(self),
    {
        self.catalog.update(id, product)
    }

    /// Removes the record carrying `id`; removing an absent identity is
    /// a no-op, not an error, so a second delete of the same identity
    /// succeeds too.
    pub fn delete_product(&mut self, id: i64)
        requires
            old(self).wf(),
        ensures
            final(self).wf(),
            final(self).db_path == old(self).db_path,
            final(self).catalog.next_id == old(self).catalog.next_id,
            final(self).catalog.rows@ == remove_id(old(self).catalog.rows@, id),
    {
        self.catalog.delete(id);
    }

    /// The path currently backing the store.
    pub fn get_database_path(&self) -> (r: String)
        ensures
            r == self.db_path,
    {
        self.db_path.clone()
    }

    /// Atomically moves the store to `new_db_path`, whose already
    /// migrated records are `new_catalog`: path and records change in
    /// one step, so every later operation reads and writes the new
    /// location and nothing of the old one. The caller migrates the new
    /// location first and calls this only on success; on failure it
    /// does not call, and the previous state stands untouched.
    pub fn reconnect(&mut self, new_db_path: String, new_catalog: Catalog)
        requires
            new_catalog.wf(),
        ensures
            final(self).wf(),
            final(self).db_path == new_db_path,
            final(self).catalog == new_catalog,
    {
        self.db_path = new_db_path;
        self.catalog = new_catalog;
    }

    /// Moves the store to `new_path` (see `reconnect`) and returns the
    /// path now backing it.
    pub fn set_database_path(&mut self, new_path: String, new_catalog: Catalog) -> (r: String)
        requires
            new_catalog.wf(),
        ensures
            final(self).wf(),
            final(self).db_path == new_path,
            final(self).catalog == new_catalog,
            r == new_path,
    {
        let r = new_path.clone();
        self.reconnect(new_path, new_catalog);
        r
    }
}

} // verus!
