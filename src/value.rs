//! Scalar values: what a condition compares.
use crate::float::{close_magnitudes, less, magnitudes_close, order_key};
use crate::text::str_less;
use vstd::prelude::*;
use vstd::string::*;

verus! {

/// A scalar taken from a document, or the operand of a condition.
#[derive(Debug)]
pub enum Scalar {
    Null,
    Bool(bool),
    /// A number that is an integer in the range of `i32`.
    Int(i32),
    /// Any other number, as the IEEE-754 encoding of a double.
    Float(u64),
    String(String),
}

impl Scalar {
    /// Which variant this is; values of one variant share a rank.
    pub open spec fn rank(&self) -> int {
        match self {
            Scalar::Null => 0,
            Scalar::Bool(_) => 1,
            Scalar::Int(_) => 2,
            Scalar::Float(_) => 3,
            Scalar::String(_) => 4,
        }
    }

    /// Equality within a variant. Floats are equal when their absolute
    /// values differ by at most 2^-52.
    pub open spec fn equals(&self, o: Scalar) -> bool {
        match (*self, o) {
            (Scalar::Null, Scalar::Null) => true,
            (Scalar::Bool(x), Scalar::Bool(y)) => x == y,
            (Scalar::Int(x), Scalar::Int(y)) => x == y,
            (Scalar::Float(x), Scalar::Float(y)) => magnitudes_close(x, y),
            (Scalar::String(x), Scalar::String(y)) => x@ == y@,
            _ => false,
        }
    }

    /// Whether the variant has an order: `Bool`, `Int`, `Float`, `String`.
    pub open spec fn is_ordered(&self) -> bool {
        !(self is Null)
    }

    /// Strict order within a variant: `false < true`, numbers by value,
    /// strings lexicographically.
    pub open spec fn below(&self, o: Scalar) -> bool {
        match (*self, o) {
            (Scalar::Bool(x), Scalar::Bool(y)) => !x && y,
            (Scalar::Int(x), Scalar::Int(y)) => x < y,
            (Scalar::Float(x), Scalar::Float(y)) => order_key(x) < order_key(y),
            (Scalar::String(x), Scalar::String(y)) => str_less(x@, y@),
            _ => false,
        }
    }

    pub fn same_variant(&self, o: &Scalar) -> (r: bool)
        ensures
            r == (self.rank() == o.rank()),
    {
        match (self, o) {
            (Scalar::Null, Scalar::Null) => true,
            (Scalar::Bool(_), Scalar::Bool(_)) => true,
            (Scalar::Int(_), Scalar::Int(_)) => true,
            (Scalar::Float(_), Scalar::Float(_)) => true,
            (Scalar::String(_), Scalar::String(_)) => true,
            _ => false,
        }
    }

    /// Equality within a variant (`equals`).
    pub fn equal_to(&self, o: &Scalar) -> (r: bool)
        ensures
            r == self.equals(*o),
    {
        match (self, o) {
            (Scalar::Null, Scalar::Null) => true,
            (Scalar::Bool(x), Scalar::Bool(y)) => *x == *y,
            (Scalar::Int(x), Scalar::Int(y)) => *x == *y,
            (Scalar::Float(x), Scalar::Float(y)) => close_magnitudes(*x, *y),
            (Scalar::String(x), Scalar::String(y)) => x.eq(y),
            _ => false,
        }
    }

    /// Strict order within a variant (`below`).
    pub fn less_than(&self, o: &Scalar) -> (r: bool)
        ensures
            r == self.below(*o),
    {
        match (self, o) {
            (Scalar::Bool(x), Scalar::Bool(y)) => !*x && *y,
            (Scalar::Int(x), Scalar::Int(y)) => *x < *y,
            (Scalar::Float(x), Scalar::Float(y)) => less(*x, *y),
            (Scalar::String(x), Scalar::String(y)) => crate::text::less(x.as_str(), y.as_str()),
            _ => false,
        }
    }

    /// The name of the variant.
    pub open spec fn variant_label(&self) -> Seq<char> {
        match self {
            Scalar::Null => "Null"@,
            Scalar::Bool(_) => "Bool"@,
            Scalar::Int(_) => "Int"@,
            Scalar::Float(_) => "Float"@,
            Scalar::String(_) => "String"@,
        }
    }

    /// The name of the variant, for diagnostics (`variant_label`).
    pub fn variant_name(&self) -> (r: String)
        ensures
            r@ == self.variant_label(),
    {
        match self {
            Scalar::Null => String::from_str("Null"),
            Scalar::Bool(_) => String::from_str("Bool"),
            Scalar::Int(_) => String::from_str("Int"),
            Scalar::Float(_) => String::from_str("Float"),
            Scalar::String(_) => String::from_str("String"),
        }
    }
}

} // verus!
