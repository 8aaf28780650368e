//! The `Product` entity and the input shape callers submit.

use vstd::prelude::*;

verus! {

/// Carrier for a numeric field. The store never interprets the value; it
/// holds the 64-bit pattern of whatever number the host application put in
/// and hands the same pattern back unchanged.
#[derive(Clone, Copy, PartialEq, Eq, Structural, Debug)]
pub struct Num {
    pub bits: u64,
}

/// What a caller submits to create or replace a record: every `Product`
/// field except the store-assigned `id` and `created_at`.
#[derive(Debug, PartialEq)]
pub struct ProductInput {
    pub address: String,
    pub title: String,
    pub brand: String,
    pub kind: String,
    pub price: Num,
    pub original_price: Option<Num>,
    pub discount: Option<String>,
    pub specification: Option<String>,
    pub date: String,
    pub remark: Option<String>,
    pub quantity: Option<Num>,
    pub unit: Option<String>,
    pub unit_price: Option<Num>,
    pub comparison_unit: Option<String>,
}

/// A persisted catalog record. `id` and `created_at` are assigned by the
/// store at insert time and never change afterwards.
#[derive(Debug, PartialEq)]
pub struct Product {
    pub id: i64,
    pub address: String,
    pub title: String,
    pub brand: String,
    pub kind: String,
    pub price: Num,
    pub original_price: Option<Num>,
    pub discount: Option<String>,
    pub specification: Option<String>,
    pub date: String,
    pub remark: Option<String>,
    pub quantity: Option<Num>,
    pub unit: Option<String>,
    pub unit_price: Option<Num>,
    pub comparison_unit: Option<String>,
    pub created_at: String,
}

/// The record that `input` describes once the store has assigned it an
/// identity and a creation timestamp.
pub open spec fn product_of(input: ProductInput, id: i64, created_at: String) -> Product {
    Product {
        id: id,
        address: input.address,
        title: input.title,
        brand: input.brand,
        kind: input.kind,
        price: input.price,
        original_price: input.original_price,
        discount: input.discount,
        specification: input.specification,
        date: input.date,
        remark: input.remark,
        quantity: input.quantity,
        unit: input.unit,
        unit_price: input.unit_price,
        comparison_unit: input.comparison_unit,
        created_at: created_at,
    }
}

/// Whether `p`'s mutable fields are exactly those of `input`.
pub open spec fn matches_input(p: Product, input: ProductInput) -> bool {
    &&& p.address == input.address
    &&& p.title == input.title
    &&& p.brand == input.brand
    &&& p.kind == input.kind
    &&& p.price == input.price
    &&& p.original_price == input.original_price
    &&& p.discount == input.discount
    &&& p.specification == input.specification
    &&& p.date == input.date
    &&& p.remark == input.remark
    &&& p.quantity == input.quantity
    &&& p.unit == input.unit
    &&& p.unit_price == input.unit_price
    &&& p.comparison_unit == input.comparison_unit
}

pub fn clone_opt_string(o: &Option<String>) -> (r: Option<String>)
    ensures
        r == *o,
{
    match o {
        Some(s) => Some(s.clone()),
        None => None,
    }
}

pub fn clone_product(p: &Product) -> (r: Product)
    ensures
        r == *p,
{
    Product {
        id: p.id,
        address: p.address.clone(),
        title: p.title.clone(),
        brand: p.brand.clone(),
        kind: p.kind.clone(),
        price: p.price,
        original_price: p.original_price,
        discount: clone_opt_string(&p.discount),
        specification: clone_opt_string(&p.specification),
        date: p.date.clone(),
        remark: clone_opt_string(&p.remark),
        quantity: p.quantity,
        unit: clone_opt_string(&p.unit),
        unit_price: p.unit_price,
        comparison_unit: clone_opt_string(&p.comparison_unit),
        created_at: p.created_at.clone(),
    }
}

} // verus!
