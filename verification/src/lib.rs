//! Core of a data-access backend: a SQL statement builder with positional
//! parameters, the permission-predicate convention layered on top of it, a
//! token-to-principal session index, and the interceptor that authenticates
//! a call before any handler runs.

pub mod auth_interceptor;
pub mod permissions;
pub mod query_builder;
pub mod queryable;
pub mod sessions_cache;
pub mod text;
