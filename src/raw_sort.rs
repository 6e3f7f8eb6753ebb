//! A sort specification as data: JSON pointers and directions.
use vstd::prelude::*;

verus! {

/// Direction of one sort criterion.
#[derive(Debug, PartialEq, Eq, Structural, Clone, Copy)]
pub enum Order {
    Asc,
    Desc,
}

/// One sort criterion: a JSON pointer and a direction, ascending when
/// absent.
#[derive(Debug)]
pub struct SortPair {
    pub pointer: String,
    pub order: Option<Order>,
}

/// Sort criteria in declared order.
#[derive(Debug)]
pub struct Sort {
    pub sort: Vec<SortPair>,
}

} // verus!
