//! The catalog of `Product` records: the store's record-keeping rules.
//!
//! A `Catalog` keeps its records in insertion order together with the raw
//! clock reading each record was created at, and assigns identities from a
//! counter that only grows, so an identity is never reused or reassigned.

use vstd::prelude::*;
use vstd::pervasive::VecAdditionalExecFns;
use crate::errors::StoreError;
use crate::product::{Product, ProductInput, product_of, clone_product};

verus! {

/// A stored record beside the raw clock reading of its insertion, kept so
/// that listing can order records by creation time without parsing the
/// formatted timestamp.
#[derive(Debug)]
pub struct Row {
    pub product: Product,
    pub created_secs: u64,
}

/// The records of one storage location, in insertion order, with the next
/// identity to assign.
#[derive(Debug)]
pub struct Catalog {
    pub rows: Vec<Row>,
    pub next_id: i64,
}

/// Whether some record in `rows` carries the identity `id`.
pub open spec fn has_id(rows: Seq<Row>, id: i64) -> bool {
    exists|i: int| 0 <= i < rows.len() && rows[i].product.id == id
}

/// The index of the record carrying `id` (meaningful only when `has_id`).
pub open spec fn index_of_id(rows: Seq<Row>, id: i64) -> int {
    choose|i: int| 0 <= i < rows.len() && rows[i].product.id == id
}

/// `rows` without every record carrying `id`, order otherwise unchanged.
pub open spec fn remove_id(rows: Seq<Row>, id: i64) -> Seq<Row>
    decreases rows.len(),
{
    if rows.len() == 0 {
        Seq::<Row>::empty()
    } else {
        let rest = remove_id(rows.drop_last(), id);
        if rows.last().product.id == id {
            rest
        } else {
            rest.push(rows.last())
        }
    }
}

impl Catalog {
    /// Identities are positive, below the counter, and strictly increasing
    /// in insertion order (hence unique and never reassigned).
    pub open spec fn wf(self) -> bool {
        &&& 1 <= self.next_id
        &&& forall|i: int|
            0 <= i < self.rows@.len() ==> 1 <= (#[trigger] self.rows@[i]).product.id < self.next_id
        &&& forall|i: int, j: int|
            0 <= i < j < self.rows@.len() ==> (#[trigger] self.rows@[i]).product.id < (
            #[trigger] self.rows@[j]).product.id
    }

    /// A fresh, empty catalog; the first record will get identity 1.
    pub fn new() -> (c: Catalog)
        ensures
            c.wf(),
            c.rows@ == Seq::<Row>::empty(),
            c.next_id == 1,
    {
        Catalog { rows: Vec::new(), next_id: 1 }
    }

    pub fn len(&self) -> (n: usize)
        ensures
            n == self.rows@.len(),
    {
        self.rows.len()
    }

    /// Appends a new record built from `input`, stamped with the given
    /// creation timestamp, under the next free identity.
    pub fn insert(&mut self, input: ProductInput, created_at: String, created_secs: u64) -> (p:
        Product)
        requires
            old(self).wf(),
            old(self).next_id < i64::MAX,
        ensures
            final(self).wf(),
            p == product_of(input, old(self).next_id, created_at),
            final(self).rows@ == old(self).rows@.push(
                Row { product: p, created_secs: created_secs },
            ),
            final(self).next_id == old(self).next_id + 1,
    {
        let id = self.next_id;
        self.next_id = self.next_id + 1;
        let p = Product {
            id: id,
            address: input.address,
            title: input.title,
            brand: input.brand,
            kind: input.kind,
            price: input.price,
            original_price: input.original_price,
            discount: input.discount,
            specification: input.specification,
            date: input.date,
            remark: input.remark,
            quantity: input.quantity,
            unit: input.unit,
            unit_price: input.unit_price,
            comparison_unit: input.comparison_unit,
            created_at: created_at,
        };
        let stored = clone_product(&p);
        self.rows.push(Row { product: stored, created_secs: created_secs });
        p
    }

    /// All records, most recent creation first; records created in the
    /// same second stay in insertion order. A point-in-time snapshot.
    pub fn list(&self) -> (r: Vec<Product>)
        ensures
            r@ == list_spec(self.rows@),
    {
        let n = self.rows.len();
        let mut pairs: Vec<(u64, usize)> = Vec::new();
        let mut i: usize = 0;
        while i < n
            invariant
                i <= n,
                n == self.rows@.len(),
                pairs@ == keyed(self.rows@).take(i as int),
            decreases n - i,
        {
            proof {
                assert(keyed(self.rows@).take(i + 1) =~= keyed(self.rows@).take(i as int).push(
                    (self.rows@[i as int].created_secs, i as usize),
                ));
            }
            let secs = self.rows[i].created_secs;
            pairs.push((secs, i));
            i += 1;
        }
        proof {
            assert(keyed(self.rows@).take(n as int) =~= keyed(self.rows@));
        }
        let mut sorted: Vec<(u64, usize)> = Vec::new();
        let mut j: usize = 0;
        while j < n
            invariant
                j <= n,
                n == self.rows@.len(),
                pairs@ == keyed(self.rows@),
                pairs@.len() == n,
                sorted@ == sort_pairs(pairs@.take(j as int)),
                sorted@.len() == j,
                forall|k: int| 0 <= k < sorted@.len() ==> (#[trigger] sorted@[k]).1 < n,
            decreases n - j,
        {
            let p = pairs[j];
            let slen = sorted.len();
            let mut pos: usize = 0;
            while pos < slen && sorted[pos].0 >= p.0
                invariant
                    pos <= slen,
                    slen == sorted@.len(),
                    forall|k: int| 0 <= k < pos ==> (#[trigger] sorted@[k]).0 >= p.0,
                decreases slen - pos,
            {
                pos += 1;
            }
            proof {
                lemma_insert_pair_eq(sorted@, p);
                let ip = ins_pos(sorted@, p);
                if ip < pos {
                    assert(sorted@[ip].0 >= p.0);
                }
                if pos < ip {
                    assert(sorted@[pos as int].0 >= p.0);
                }
                assert(ip == pos);
                sorted@.insert_ensures(pos as int, p);
                assert(pairs@.take(j + 1).drop_last() =~= pairs@.take(j as int));
                assert(pairs@.take(j + 1).last() == pairs@[j as int]);
            }
            let ghost pre = sorted@;
            sorted.insert(pos, p);
            proof {
                assert(sorted@ == sort_pairs(pairs@.take(j + 1)));
                assert forall|k: int| 0 <= k < sorted@.len() implies (#[trigger] sorted@[k]).1
                    < n by {
                    if k < pos {
                        assert(sorted@[k] == pre[k]);
                    } else if k == pos {
                        assert(sorted@[k] == p);
                    } else {
                        assert(sorted@[(k - 1) + 1] == pre[k - 1]);
                    }
                }
            }
            j += 1;
        }
        proof {
            assert(pairs@.take(n as int) =~= pairs@);
        }
        let mut out: Vec<Product> = Vec::new();
        let mut k: usize = 0;
        while k < n
            invariant
                k <= n,
                n == self.rows@.len(),
                sorted@ == sort_pairs(keyed(self.rows@)),
                sorted@.len() == n,
                forall|t: int| 0 <= t < n ==> (#[trigger] sorted@[t]).1 < n,
                out@.len() == k,
                forall|t: int|
                    0 <= t < k ==> #[trigger] out@[t] == self.rows@[sorted@[t].1 as int].product,
            decreases n - k,
        {
            let p = sorted[k];
            let row = &self.rows[p.1];
            let prod = clone_product(&row.product);
            out.push(prod);
            k += 1;
        }
        proof {
            assert(out@ =~= list_spec(self.rows@));
        }
        out
    }

    /// Replaces every mutable field of the record carrying `id` with the
    /// fields of `input`; the record's identity and creation timestamp
    /// survive unchanged. Returns `NotFound`, leaving the catalog as it
    /// was, exactly when no record carries `id`.
    pub fn update(&mut self, id: i64, input: ProductInput) -> (r: Result<Product, StoreError>)
        requires
            old(self).wf(),
        ensures
            final(self).wf(),
            final(self).next_id == old(self).next_id,
            r is Ok <==> has_id(old(self).rows@, id),
            r matches Ok(p) ==> ({
                let i = index_of_id(old(self).rows@, id);
                &&& 0 <= i < old(self).rows@.len()
                &&& old(self).rows@[i].product.id == id
                &&& p == product_of(input, id, old(self).rows@[i].product.created_at)
                &&& final(self).rows@ == old(self).rows@.update(
                    i,
                    Row { product: p, created_secs: old(self).rows@[i].created_secs },
                )
            }),
            r is Err ==> r == Result::<Product, StoreError>::Err(StoreError::NotFound)
                && *final(self) == *old(self),
    {
        let n = self.rows.len();
        let mut i: usize = 0;
        while i < n
            invariant
                i <= n,
                n == self.rows@.len(),
                *self == *old(self),
                old(self).wf(),
                forall|k: int| 0 <= k < i ==> (#[trigger] self.rows@[k]).product.id != id,
            decreases n - i,
        {
            if self.rows[i].product.id == id {
                let row = &self.rows[i];
                let created_at = row.product.created_at.clone();
                let created_secs = row.created_secs;
                let p = Product {
                    id: id,
                    address: input.address,
                    title: input.title,
                    brand: input.brand,
                    kind: input.kind,
                    price: input.price,
                    original_price: input.original_price,
                    discount: input.discount,
                    specification: input.specification,
                    date: input.date,
                    remark: input.remark,
                    quantity: input.quantity,
                    unit: input.unit,
                    unit_price: input.unit_price,
                    comparison_unit: input.comparison_unit,
                    created_at: created_at,
                };
                let stored = clone_product(&p);
                self.rows.set(i, Row { product: stored, created_secs: created_secs });
                proof {
                    let w = i as int;
                    assert(has_id(old(self).rows@, id));
                    let c = index_of_id(old(self).rows@, id);
                    if c < w {
                        assert(old(self).rows@[c].product.id < old(self).rows@[w].product.id);
                    }
                    if w < c {
                        assert(old(self).rows@[w].product.id < old(self).rows@[c].product.id);
                    }
                    assert(c == w);
                    assert forall|k: int| 0 <= k < self.rows@.len() implies (
                    #[trigger] self.rows@[k]).product.id == old(self).rows@[k].product.id by {}
                    assert(self.wf());
                }
                return Ok(p);
            }
            i += 1;
        }
        proof {
            assert(!has_id(self.rows@, id));
        }
        Err(StoreError::NotFound)
    }

    /// Removes the record carrying `id` if one is present; removing an
    /// absent identity is a no-op, not an error.
    pub fn delete(&mut self, id: i64)
        requires
            old(self).wf(),
        ensures
            final(self).wf(),
            final(self).next_id == old(self).next_id,
            final(self).rows@ == remove_id(old(self).rows@, id),
    {
        let n = self.rows.len();
        let mut kept: Vec<Row> = Vec::new();
        let mut i: usize = 0;
        while i < n
            invariant
                i <= n,
                n == self.rows@.len(),
                *self == *old(self),
                kept@ == remove_id(self.rows@.take(i as int), id),
            decreases n - i,
        {
            proof {
                assert(self.rows@.take(i + 1).drop_last() =~= self.rows@.take(i as int));
                assert(self.rows@.take(i + 1).last() == self.rows@[i as int]);
            }
            if self.rows[i].product.id != id {
                let row = &self.rows[i];
                kept.push(Row { product: clone_product(&row.product), created_secs: row.created_secs });
            }
            i += 1;
        }
        proof {
            assert(self.rows@.take(n as int) =~= self.rows@);
            lemma_remove_id_keeps(old(self).rows@, id);
            lemma_remove_id_mono(old(self).rows@, id, old(self).next_id);
        }
        self.rows = kept;
    }
}

/// The ordering keys for listing: each record's creation seconds paired
/// with its insertion index.
pub open spec fn keyed(rows: Seq<Row>) -> Seq<(u64, usize)> {
    Seq::new(rows.len(), |i: int| (rows[i].created_secs, i as usize))
}

/// Where `insert_pair` puts `p`: before the first element whose seconds
/// are strictly smaller, hence after every element with equal seconds.
pub open spec fn ins_pos(s: Seq<(u64, usize)>, p: (u64, usize)) -> int
    decreases s.len(),
{
    if s.len() == 0 {
        0
    } else if p.0 > s[0].0 {
        0
    } else {
        1 + ins_pos(s.drop_first(), p)
    }
}

/// `p` placed into the descending-by-seconds sequence `s`: newer entries
/// first, and entries with equal seconds kept in the order they came.
pub open spec fn insert_pair(s: Seq<(u64, usize)>, p: (u64, usize)) -> Seq<(u64, usize)>
    decreases s.len(),
{
    if s.len() == 0 {
        seq![p]
    } else if p.0 > s[0].0 {
        seq![p] + s
    } else {
        seq![s[0]] + insert_pair(s.drop_first(), p)
    }
}

/// Insertion sort of the listing keys, newest first, stable.
pub open spec fn sort_pairs(s: Seq<(u64, usize)>) -> Seq<(u64, usize)>
    decreases s.len(),
{
    if s.len() == 0 {
        Seq::<(u64, usize)>::empty()
    } else {
        insert_pair(sort_pairs(s.drop_last()), s.last())
    }
}

/// The listing: every record, newest creation time first, records with
/// equal creation times in insertion order.
pub open spec fn list_spec(rows: Seq<Row>) -> Seq<Product> {
    sort_pairs(keyed(rows)).map_values(|p: (u64, usize)| rows[p.1 as int].product)
}

/// `insert_pair` is `Seq::insert` at `ins_pos`, and `ins_pos` is the first
/// position whose seconds are strictly smaller than `p`'s.
pub proof fn lemma_insert_pair_eq(s: Seq<(u64, usize)>, p: (u64, usize))
    ensures
        0 <= ins_pos(s, p) <= s.len(),
        insert_pair(s, p) == s.insert(ins_pos(s, p), p),
        forall|k: int| 0 <= k < ins_pos(s, p) ==> s[k].0 >= p.0,
        ins_pos(s, p) < s.len() ==> s[ins_pos(s, p)].0 < p.0,
    decreases s.len(),
{
    if s.len() == 0 {
        assert(insert_pair(s, p) =~= s.insert(0, p));
    } else if p.0 > s[0].0 {
        assert(insert_pair(s, p) =~= s.insert(0, p));
    } else {
        let s1 = s.drop_first();
        lemma_insert_pair_eq(s1, p);
        let k1 = ins_pos(s1, p);
        s1.insert_ensures(k1, p);
        s.insert_ensures(k1 + 1, p);
        assert(insert_pair(s, p) =~= s.insert(k1 + 1, p)) by {
            assert forall|j: int| 0 <= j < s.len() + 1 implies (seq![s[0]] + s1.insert(k1, p))[j]
                == s.insert(k1 + 1, p)[j] by {
                if j > 0 {
                    assert((seq![s[0]] + s1.insert(k1, p))[j] == s1.insert(k1, p)[j - 1]);
                    if j - 1 < k1 {
                        assert(s1.insert(k1, p)[j - 1] == s1[j - 1]);
                        assert(s.insert(k1 + 1, p)[j] == s[j]);
                        assert(s1[j - 1] == s[j]);
                    } else if j - 1 == k1 {
                        assert(s1.insert(k1, p)[j - 1] == p);
                    } else {
                        assert(s1.insert(k1, p)[(j - 2) + 1] == s1[j - 2]);
                        assert(s.insert(k1 + 1, p)[(j - 1) + 1] == s[j - 1]);
                        assert(s1[j - 2] == s[j - 1]);
                    }
                }
            }
        }
        assert forall|k: int| 0 <= k < ins_pos(s, p) implies s[k].0 >= p.0 by {
            if k > 0 {
                assert(s1[k - 1].0 >= p.0);
            }
        }
        if ins_pos(s, p) < s.len() {
            assert(s1[k1] == s[k1 + 1]);
        }
    }
}

/// Inserting into a descending sequence keeps it descending.
pub proof fn lemma_insert_pair_sorted(s: Seq<(u64, usize)>, p: (u64, usize))
    requires
        forall|i: int, j: int| 0 <= i < j < s.len() ==> (#[trigger] s[i]).0 >= (#[trigger] s[j]).0,
    ensures
        forall|i: int, j: int|
            0 <= i < j < insert_pair(s, p).len() ==> (#[trigger] insert_pair(s, p)[i]).0 >= (
            #[trigger] insert_pair(s, p)[j]).0,
{
    lemma_insert_pair_eq(s, p);
    let pos = ins_pos(s, p);
    s.insert_ensures(pos, p);
    assert forall|i: int, j: int| 0 <= i < j < insert_pair(s, p).len() implies (
    #[trigger] insert_pair(s, p)[i]).0 >= (#[trigger] insert_pair(s, p)[j]).0 by {
        let t = insert_pair(s, p);
        if i < pos {
            assert(t[i] == s[i]);
        } else if i == pos {
            assert(t[i] == p);
        } else {
            assert(t[(i - 1) + 1] == s[i - 1]);
        }
        if j < pos {
            assert(t[j] == s[j]);
        } else if j == pos {
            assert(t[j] == p);
        } else {
            assert(t[(j - 1) + 1] == s[j - 1]);
        }
    }
}

/// The sorted keys are exactly the keys put in.
pub proof fn lemma_insert_pair_contains(s: Seq<(u64, usize)>, p: (u64, usize))
    ensures
        forall|x: (u64, usize)|
            #[trigger] insert_pair(s, p).contains(x) <==> (s.contains(x) || x == p),
{
    lemma_insert_pair_eq(s, p);
    let pos = ins_pos(s, p);
    s.insert_ensures(pos, p);
    let t = insert_pair(s, p);
    assert forall|x: (u64, usize)| #[trigger] t.contains(x) implies (s.contains(x) || x == p) by {
        let j = choose|j: int| 0 <= j < t.len() && t[j] == x;
        if j < pos {
            assert(t[j] == s[j]);
        } else if j == pos {
            assert(t[j] == p);
        } else {
            assert(t[(j - 1) + 1] == s[j - 1]);
        }
    }
    assert forall|x: (u64, usize)| (s.contains(x) || x == p) implies #[trigger] t.contains(x) by {
        if x == p {
            assert(t[pos] == p);
        } else {
            let j = choose|j: int| 0 <= j < s.len() && s[j] == x;
            if j < pos {
                assert(t[j] == s[j]);
            } else {
                assert(t[j + 1] == s[j]);
            }
        }
    }
}

pub proof fn lemma_sort_pairs_len(s: Seq<(u64, usize)>)
    ensures
        sort_pairs(s).len() == s.len(),
    decreases s.len(),
{
    if s.len() > 0 {
        lemma_sort_pairs_len(s.drop_last());
        lemma_insert_pair_eq(sort_pairs(s.drop_last()), s.last());
        sort_pairs(s.drop_last()).insert_ensures(
            ins_pos(sort_pairs(s.drop_last()), s.last()),
            s.last(),
        );
    }
}

/// Sorting the keys reorders them: same elements, newest first.
pub proof fn lemma_sort_pairs_contains(s: Seq<(u64, usize)>)
    ensures
        forall|x: (u64, usize)| #[trigger] sort_pairs(s).contains(x) <==> s.contains(x),
    decreases s.len(),
{
    if s.len() > 0 {
        let s0 = s.drop_last();
        lemma_sort_pairs_contains(s0);
        lemma_insert_pair_contains(sort_pairs(s0), s.last());
        assert forall|x: (u64, usize)| #[trigger] sort_pairs(s).contains(x) implies s.contains(
            x,
        ) by {
            if sort_pairs(s0).contains(x) {
                let j = choose|j: int| 0 <= j < s0.len() && s0[j] == x;
                assert(s[j] == x);
            } else {
                assert(s[s.len() - 1] == x);
            }
        }
        assert forall|x: (u64, usize)| s.contains(x) implies #[trigger] sort_pairs(s).contains(
            x,
        ) by {
            let j = choose|j: int| 0 <= j < s.len() && s[j] == x;
            if j < s.len() - 1 {
                assert(s0[j] == x);
            } else {
                assert(x == s.last());
            }
        }
    }
}

pub proof fn lemma_sort_pairs_sorted(s: Seq<(u64, usize)>)
    ensures
        forall|i: int, j: int|
            0 <= i < j < sort_pairs(s).len() ==> (#[trigger] sort_pairs(s)[i]).0 >= (
            #[trigger] sort_pairs(s)[j]).0,
    decreases s.len(),
{
    if s.len() > 0 {
        lemma_sort_pairs_sorted(s.drop_last());
        lemma_insert_pair_sorted(sort_pairs(s.drop_last()), s.last());
    }
}

/// The listing keys index real records: the sorted key sequence has one
/// key per record, each pointing back into `rows` at its creation seconds.
pub proof fn lemma_list_is_reordering(rows: Seq<Row>)
    requires
        rows.len() <= usize::MAX,
    ensures
        sort_pairs(keyed(rows)).len() == rows.len(),
        list_spec(rows).len() == rows.len(),
        forall|t: int|
            0 <= t < rows.len() ==> (#[trigger] sort_pairs(keyed(rows))[t]).1 < rows.len()
                && rows[sort_pairs(keyed(rows))[t].1 as int].created_secs == sort_pairs(
                keyed(rows),
            )[t].0 && list_spec(rows)[t] == rows[sort_pairs(keyed(rows))[t].1 as int].product,
        forall|a: int, b: int|
            0 <= a < b < rows.len() ==> (#[trigger] sort_pairs(keyed(rows))[a]).0 >= (
            #[trigger] sort_pairs(keyed(rows))[b]).0,
{
    lemma_sort_pairs_len(keyed(rows));
    lemma_sort_pairs_contains(keyed(rows));
    lemma_sort_pairs_sorted(keyed(rows));
    assert forall|t: int| 0 <= t < rows.len() implies (#[trigger] sort_pairs(keyed(rows))[t]).1
        < rows.len() && rows[sort_pairs(keyed(rows))[t].1 as int].created_secs == sort_pairs(
        keyed(rows),
    )[t].0 by {
        let x = sort_pairs(keyed(rows))[t];
        assert(sort_pairs(keyed(rows)).contains(x));
        assert(keyed(rows).contains(x));
        let idx = choose|idx: int| 0 <= idx < keyed(rows).len() && keyed(rows)[idx] == x;
        assert(x == (rows[idx].created_secs, idx as usize));
    }
}

/// Inserting a record changes the listing by splicing exactly that one
/// record in: every other listed record stays, in its old order.
pub proof fn lemma_insert_then_list(rows: Seq<Row>, r: Row)
    requires
        rows.len() < usize::MAX,
    ensures
        exists|k: int|
            0 <= k <= list_spec(rows).len() && list_spec(rows.push(r)) == #[trigger] (list_spec(
                rows,
            ).take(k) + seq![r.product] + list_spec(rows).skip(k)),
{
    let rows2 = rows.push(r);
    let np = (r.created_secs, rows.len() as usize);
    assert(keyed(rows2).drop_last() =~= keyed(rows));
    assert(keyed(rows2).last() == np);
    assert(keyed(rows2).len() == rows2.len());
    assert(sort_pairs(keyed(rows2)) == insert_pair(sort_pairs(keyed(rows)), np));
    let sorted = sort_pairs(keyed(rows));
    lemma_list_is_reordering(rows);
    lemma_list_is_reordering(rows2);
    lemma_insert_pair_eq(sorted, np);
    let pos = ins_pos(sorted, np);
    sorted.insert_ensures(pos, np);
    let l1 = list_spec(rows);
    let l2 = list_spec(rows2);
    assert(l2 == l1.take(pos) + seq![r.product] + l1.skip(pos)) by {
        assert forall|t: int| 0 <= t < l2.len() implies l2[t] == (l1.take(pos) + seq![r.product]
            + l1.skip(pos))[t] by {
            if t < pos {
                assert(sort_pairs(keyed(rows2))[t] == sorted[t]);
                assert(rows2[sorted[t].1 as int] == rows[sorted[t].1 as int]);
                assert((l1.take(pos) + seq![r.product] + l1.skip(pos))[t] == l1[t]);
            } else if t == pos {
                assert(sort_pairs(keyed(rows2))[t] == np);
                assert(rows2[rows.len() as int] == r);
            } else {
                assert(sort_pairs(keyed(rows2))[(t - 1) + 1] == sorted[t - 1]);
                assert(rows2[sorted[t - 1].1 as int] == rows[sorted[t - 1].1 as int]);
                assert((l1.take(pos) + seq![r.product] + l1.skip(pos))[t] == l1.skip(pos)[t - pos
                    - 1]);
                assert(l1.skip(pos)[t - pos - 1] == l1[t - 1]);
            }
        }
        assert(l2 =~= l1.take(pos) + seq![r.product] + l1.skip(pos));
    }
}

/// The listing holds exactly the catalog's records: the same products,
/// as many times each, only reordered.
pub proof fn lemma_list_permutes(rows: Seq<Row>)
    requires
        rows.len() <= usize::MAX,
    ensures
        list_spec(rows).to_multiset() == rows.map_values(|r: Row| r.product).to_multiset(),
    decreases rows.len(),
{
    broadcast use vstd::seq_lib::to_multiset_build;
    broadcast use vstd::seq_lib::lemma_multiset_commutative;
    broadcast use vstd::multiset::group_multiset_axioms;

    if rows.len() == 0 {
        assert(keyed(rows) =~= Seq::<(u64, usize)>::empty());
        assert(list_spec(rows) =~= Seq::<Product>::empty());
        assert(rows.map_values(|r: Row| r.product) =~= Seq::<Product>::empty());
    } else {
        let r0 = rows.drop_last();
        let last = rows.last();
        let p = last.product;
        lemma_list_permutes(r0);
        assert(rows =~= r0.push(last));
        lemma_insert_then_list(r0, last);
        let l1 = list_spec(r0);
        let l2 = list_spec(r0.push(last));
        let k = choose|k: int|
            0 <= k <= l1.len() && l2 == #[trigger] (l1.take(k) + seq![p] + l1.skip(k));
        assert(l1.take(k) + seq![p] =~= l1.take(k).push(p));
        assert(l2.to_multiset() == (l1.take(k).push(p) + l1.skip(k)).to_multiset());
        assert((l1.take(k).push(p) + l1.skip(k)).to_multiset() =~= l1.take(k).to_multiset().insert(
            p,
        ).add(l1.skip(k).to_multiset()));
        assert(l1.take(k) + l1.skip(k) =~= l1);
        assert(l1.to_multiset() =~= l1.take(k).to_multiset().add(l1.skip(k).to_multiset()));
        assert(l2.to_multiset() =~= l1.to_multiset().insert(p));
        assert(rows.map_values(|r: Row| r.product) =~= r0.map_values(|r: Row| r.product).push(p));
        assert(rows.map_values(|r: Row| r.product).to_multiset() =~= l1.to_multiset().insert(p));
        assert(list_spec(rows).to_multiset() =~= rows.map_values(
            |r: Row| r.product,
        ).to_multiset());
    }
}

/// Updating a record in place changes, at each listing position, nothing
/// but that one record, which keeps its place (its creation time is
/// unchanged) and appears with its new fields.
pub proof fn lemma_update_then_list(rows: Seq<Row>, i: int, r2: Row)
    requires
        rows.len() <= usize::MAX,
        0 <= i < rows.len(),
        r2.created_secs == rows[i].created_secs,
    ensures
        list_spec(rows.update(i, r2)).len() == list_spec(rows).len(),
        forall|t: int|
            0 <= t < list_spec(rows).len() ==> (#[trigger] list_spec(rows.update(i, r2))[t]
                == list_spec(rows)[t] || (list_spec(rows.update(i, r2))[t] == r2.product
                && list_spec(rows)[t] == rows[i].product)),
        exists|t: int|
            0 <= t < list_spec(rows).len() && #[trigger] list_spec(rows.update(i, r2))[t]
                == r2.product,
{
    let rows2 = rows.update(i, r2);
    assert(keyed(rows2) =~= keyed(rows));
    lemma_list_is_reordering(rows);
    lemma_list_is_reordering(rows2);
    let sorted = sort_pairs(keyed(rows));
    assert forall|t: int| 0 <= t < list_spec(rows).len() implies (#[trigger] list_spec(rows2)[t]
        == list_spec(rows)[t] || (list_spec(rows2)[t] == r2.product && list_spec(rows)[t]
        == rows[i].product)) by {
        if sorted[t].1 == i {
            assert(rows2[sorted[t].1 as int] == r2);
        } else {
            assert(rows2[sorted[t].1 as int] == rows[sorted[t].1 as int]);
        }
    }
    lemma_sort_pairs_contains(keyed(rows));
    assert(keyed(rows)[i] == (rows[i].created_secs, i as usize));
    assert(keyed(rows).contains((rows[i].created_secs, i as usize)));
    assert(sorted.contains((rows[i].created_secs, i as usize)));
    let t = choose|t: int|
        0 <= t < sorted.len() && sorted[t] == (rows[i].created_secs, i as usize);
    assert(list_spec(rows2)[t] == r2.product);
}

/// No listed record carries an identity that no row carries.
pub proof fn lemma_absent_not_listed(rows: Seq<Row>, id: i64)
    requires
        rows.len() <= usize::MAX,
        forall|i: int| 0 <= i < rows.len() ==> (#[trigger] rows[i]).product.id != id,
    ensures
        forall|t: int|
            0 <= t < list_spec(rows).len() ==> (#[trigger] list_spec(rows)[t]).id != id,
{
    lemma_list_is_reordering(rows);
}

/// `remove_id` never grows the catalog.
pub proof fn lemma_remove_id_len(rows: Seq<Row>, id: i64)
    ensures
        remove_id(rows, id).len() <= rows.len(),
    decreases rows.len(),
{
    if rows.len() > 0 {
        lemma_remove_id_len(rows.drop_last(), id);
    }
}

/// Deleting an identity leaves a listing in which it never appears.
pub proof fn lemma_delete_then_list(rows: Seq<Row>, id: i64)
    requires
        rows.len() <= usize::MAX,
    ensures
        forall|t: int|
            0 <= t < list_spec(remove_id(rows, id)).len() ==> (#[trigger] list_spec(
                remove_id(rows, id),
            )[t]).id != id,
{
    lemma_remove_id_keeps(rows, id);
    lemma_remove_id_len(rows, id);
    lemma_absent_not_listed(remove_id(rows, id), id);
}

/// Removing an identity no record carries changes nothing.
pub proof fn lemma_remove_id_noop(rows: Seq<Row>, id: i64)
    requires
        forall|k: int| 0 <= k < rows.len() ==> (#[trigger] rows[k]).product.id != id,
    ensures
        remove_id(rows, id) == rows,
    decreases rows.len(),
{
    if rows.len() > 0 {
        lemma_remove_id_noop(rows.drop_last(), id);
        assert(remove_id(rows, id) =~= rows);
    } else {
        assert(remove_id(rows, id) =~= rows);
    }
}

/// Deleting the same identity a second time leaves the catalog exactly
/// as the first delete left it.
pub proof fn lemma_delete_idempotent(rows: Seq<Row>, id: i64)
    ensures
        remove_id(remove_id(rows, id), id) == remove_id(rows, id),
{
    lemma_remove_id_keeps(rows, id);
    lemma_remove_id_noop(remove_id(rows, id), id);
}

/// An identity the store has retired: smaller than every identity still
/// to be assigned, and carried by no record.
pub open spec fn id_retired(c: Catalog, id: i64) -> bool {
    &&& id < c.next_id
    &&& forall|i: int| 0 <= i < c.rows@.len() ==> (#[trigger] c.rows@[i]).product.id != id
}

/// Deleting an identity the catalog held retires it.
pub proof fn lemma_delete_retires(before: Catalog, after: Catalog, id: i64)
    requires
        before.wf(),
        has_id(before.rows@, id),
        after.next_id == before.next_id,
        after.rows@ == remove_id(before.rows@, id),
    ensures
        id_retired(after, id),
{
    let w = choose|i: int| 0 <= i < before.rows@.len() && before.rows@[i].product.id == id;
    assert(before.rows@[w].product.id < before.next_id);
    lemma_remove_id_keeps(before.rows@, id);
}

/// A retired identity stays retired across an insert: the fresh record
/// takes the counter's value, which lies above every retired identity.
pub proof fn lemma_retired_preserved_by_insert(c1: Catalog, c2: Catalog, id: i64, r: Row)
    requires
        id_retired(c1, id),
        r.product.id == c1.next_id,
        c2.rows@ == c1.rows@.push(r),
        c2.next_id == c1.next_id + 1,
    ensures
        id_retired(c2, id),
{
}

/// A retired identity stays retired across an update, which reuses the
/// identity of the record it replaces.
pub proof fn lemma_retired_preserved_by_update(c1: Catalog, c2: Catalog, id: i64, i: int, r: Row)
    requires
        id_retired(c1, id),
        0 <= i < c1.rows@.len(),
        r.product.id == c1.rows@[i].product.id,
        c2.rows@ == c1.rows@.update(i, r),
        c2.next_id == c1.next_id,
    ensures
        id_retired(c2, id),
{
}

/// A retired identity stays retired across any delete.
pub proof fn lemma_retired_preserved_by_delete(c1: Catalog, c2: Catalog, id: i64, other: i64)
    requires
        id_retired(c1, id),
        c2.rows@ == remove_id(c1.rows@, other),
        c2.next_id == c1.next_id,
    ensures
        id_retired(c2, id),
{
    lemma_remove_id_keeps(c1.rows@, other);
}

/// A retired identity never appears in the listing.
pub proof fn lemma_retired_not_listed(c: Catalog, id: i64)
    requires
        c.rows@.len() <= usize::MAX,
        id_retired(c, id),
    ensures
        forall|t: int|
            0 <= t < list_spec(c.rows@).len() ==> (#[trigger] list_spec(c.rows@)[t]).id != id,
{
    lemma_absent_not_listed(c.rows@, id);
}

/// Nothing in `remove_id(rows, id)` carries `id`, and every record in it
/// comes from `rows`.
pub proof fn lemma_remove_id_keeps(rows: Seq<Row>, id: i64)
    ensures
        forall|k: int|
            0 <= k < remove_id(rows, id).len() ==> (#[trigger] remove_id(rows, id)[k]).product.id
                != id,
        forall|k: int|
            0 <= k < remove_id(rows, id).len() ==> rows.contains(#[trigger] remove_id(rows, id)[k]),
    decreases rows.len(),
{
    if rows.len() > 0 {
        lemma_remove_id_keeps(rows.drop_last(), id);
        let rest = remove_id(rows.drop_last(), id);
        assert forall|k: int| 0 <= k < remove_id(rows, id).len() implies rows.contains(
            #[trigger] remove_id(rows, id)[k],
        ) by {
            if k < rest.len() {
                let j = choose|j: int|
                    0 <= j < rows.drop_last().len() && rows.drop_last()[j] == rest[k];
                assert(rows[j] == remove_id(rows, id)[k]);
            } else {
                assert(remove_id(rows, id)[k] == rows.last());
                assert(rows[rows.len() - 1] == remove_id(rows, id)[k]);
            }
        }
    }
}

/// Removing records keeps the remaining identities in their strictly
/// increasing insertion order and below `bound`.
pub proof fn lemma_remove_id_mono(rows: Seq<Row>, id: i64, bound: i64)
    requires
        forall|i: int| 0 <= i < rows.len() ==> 1 <= (#[trigger] rows[i]).product.id < bound,
        forall|i: int, j: int|
            0 <= i < j < rows.len() ==> (#[trigger] rows[i]).product.id < (
            #[trigger] rows[j]).product.id,
    ensures
        forall|i: int|
            0 <= i < remove_id(rows, id).len() ==> 1 <= (#[trigger] remove_id(rows, id)[i]).product.id
                < bound,
        forall|i: int, j: int|
            0 <= i < j < remove_id(rows, id).len() ==> (#[trigger] remove_id(rows, id)[i]).product.id
                < (#[trigger] remove_id(rows, id)[j]).product.id,
    decreases rows.len(),
{
    if rows.len() > 0 {
        lemma_remove_id_mono(rows.drop_last(), id, bound);
        lemma_remove_id_keeps(rows.drop_last(), id);
        let rest = remove_id(rows.drop_last(), id);
        if rows.last().product.id != id {
            assert forall|i: int, j: int|
                0 <= i < j < remove_id(rows, id).len() implies (#[trigger] remove_id(rows, id)[i]).product.id
                < (#[trigger] remove_id(rows, id)[j]).product.id by {
                if j == rest.len() {
                    assert(rows.drop_last().contains(rest[i]));
                    let w = choose|w: int|
                        0 <= w < rows.drop_last().len() && rows.drop_last()[w] == rest[i];
                    assert(rows[w].product.id < rows.last().product.id);
                }
            }
        }
    }
}

} // verus!
