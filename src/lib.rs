//! Filters a stream of JSON documents by a query and orders them by sort
//! criteria, both given as data.
//!
//! `query` evaluates a boolean tree against a document, `cond` the
//! conditions on the scalar that a JSON pointer addresses, and `sort` orders
//! documents by keys taken at pointers.
pub mod compare;
pub mod cond;
pub mod error;
pub mod float;
pub mod json;
pub mod matcher;
pub mod query;
pub mod raw_query;
pub mod raw_sort;
pub mod select;
pub mod sort;
pub mod text;
pub mod value;
