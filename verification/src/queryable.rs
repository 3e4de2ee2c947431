//! What a persisted entity type knows about its own storage: its column
//! list, its table name, and a fresh statement builder preloaded for its
//! read paths. Entity code outside this crate implements it, usually from
//! generated boilerplate.

use vstd::prelude::*;

use crate::query_builder::QueryBuilder;

verus! {

pub trait Queryable {
    /// The entity's column names, in projection order.
    fn fields() -> Vec<&'static str>;

    /// The entity's table name.
    fn table() -> &'static str;

    /// A fresh builder for the entity's table with its columns registered
    /// for projection.
    fn query() -> QueryBuilder;
}

} // verus!
