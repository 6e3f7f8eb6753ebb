//! Sort keys taken from documents, and their total order.
use crate::float::{is_finite, less, order_key, same, scaled_value};
use crate::json::Target;
use crate::raw_sort::Order;
use crate::text::str_less;
use core::cmp::Ordering;
use vstd::prelude::*;

verus! {

/// A sort key: the value that a criterion's pointer addresses. Arrays and
/// objects are kept only as their kind.
#[derive(Debug)]
pub enum PairValue {
    Null,
    Array,
    Object,
    Bool(bool),
    /// A number, as the IEEE-754 encoding of the double it reads as.
    Number(u64),
    String(String),
}

pub open spec fn reverse(c: Ordering) -> Ordering {
    match c {
        Ordering::Less => Ordering::Greater,
        Ordering::Equal => Ordering::Equal,
        Ordering::Greater => Ordering::Less,
    }
}

/// The ascending comparison, or its reverse for `Desc`.
pub open spec fn directed(c: Ordering, o: Order) -> Ordering {
    match o {
        Order::Asc => c,
        Order::Desc => reverse(c),
    }
}

/// The key for a pointer's target; a pointer that resolves to nothing gives
/// `Null`.
pub open spec fn key_of(t: Option<Target>) -> PairValue {
    match t {
        None => PairValue::Null,
        Some(Target::Null) => PairValue::Null,
        Some(Target::Bool(b)) => PairValue::Bool(b),
        Some(Target::Number { bits }) => PairValue::Number(bits),
        Some(Target::String(s)) => PairValue::String(s),
        Some(Target::Array) => PairValue::Array,
        Some(Target::Object) => PairValue::Object,
    }
}

impl PairValue {
    /// Position of the variant in `Null < Array < Object < Bool < Number <
    /// String`.
    pub open spec fn rank(&self) -> int {
        match self {
            PairValue::Null => 0,
            PairValue::Array => 1,
            PairValue::Object => 2,
            PairValue::Bool(_) => 3,
            PairValue::Number(_) => 4,
            PairValue::String(_) => 5,
        }
    }

    /// The ascending order of keys: by variant, then `false < true`, numbers
    /// by value, strings lexicographically; nulls, arrays and objects are
    /// equal within their variant.
    pub open spec fn cmp_spec(&self, o: PairValue) -> Ordering {
        if self.rank() < o.rank() {
            Ordering::Less
        } else if self.rank() > o.rank() {
            Ordering::Greater
        } else {
            match (*self, o) {
                (PairValue::Bool(x), PairValue::Bool(y)) => if x == y {
                    Ordering::Equal
                } else if !x {
                    Ordering::Less
                } else {
                    Ordering::Greater
                },
                (PairValue::Number(x), PairValue::Number(y)) => if order_key(x) < order_key(y) {
                    Ordering::Less
                } else if order_key(x) == order_key(y) {
                    Ordering::Equal
                } else {
                    Ordering::Greater
                },
                (PairValue::String(x), PairValue::String(y)) => if x@ == y@ {
                    Ordering::Equal
                } else if str_less(x@, y@) {
                    Ordering::Less
                } else {
                    Ordering::Greater
                },
                _ => Ordering::Equal,
            }
        }
    }

    /// The key for a pointer's target (`key_of`).
    pub fn from_target(t: Option<Target>) -> (r: PairValue)
        ensures
            r == key_of(t),
    {
        match t {
            None => PairValue::Null,
            Some(Target::Null) => PairValue::Null,
            Some(Target::Bool(b)) => PairValue::Bool(b),
            Some(Target::Number { bits }) => PairValue::Number(bits),
            Some(Target::String(s)) => PairValue::String(s),
            Some(Target::Array) => PairValue::Array,
            Some(Target::Object) => PairValue::Object,
        }
    }

    fn rank_of(&self) -> (r: u8)
        ensures
            r == self.rank(),
    {
        match self {
            PairValue::Null => 0,
            PairValue::Array => 1,
            PairValue::Object => 2,
            PairValue::Bool(_) => 3,
            PairValue::Number(_) => 4,
            PairValue::String(_) => 5,
        }
    }

    /// The ascending order of keys (`cmp_spec`).
    pub fn compare(&self, o: &PairValue) -> (r: Ordering)
        ensures
            r == self.cmp_spec(*o),
    {
        let a = self.rank_of();
        let b = o.rank_of();
        if a < b {
            return Ordering::Less;
        }
        if a > b {
            return Ordering::Greater;
        }
        match (self, o) {
            (PairValue::Bool(x), PairValue::Bool(y)) => if *x == *y {
                Ordering::Equal
            } else if !*x {
                Ordering::Less
            } else {
                Ordering::Greater
            },
            (PairValue::Number(x), PairValue::Number(y)) => if less(*x, *y) {
                Ordering::Less
            } else if same(*x, *y) {
                Ordering::Equal
            } else {
                Ordering::Greater
            },
            (PairValue::String(x), PairValue::String(y)) => if x.eq(y) {
                Ordering::Equal
            } else if crate::text::less(x.as_str(), y.as_str()) {
                Ordering::Less
            } else {
                Ordering::Greater
            },
            _ => Ordering::Equal,
        }
    }
}

/// The variants are ordered `Null < Array < Object < Bool < Number <
/// String`, and two arrays, or two objects, are always equal, whatever they
/// hold.
pub proof fn lemma_variant_order(a: PairValue, b: PairValue)
    ensures
        a.rank() < b.rank() ==> a.cmp_spec(b) == Ordering::Less,
        (a is Array && b is Array) ==> a.cmp_spec(b) == Ordering::Equal,
        (a is Object && b is Object) ==> a.cmp_spec(b) == Ordering::Equal,
        (a is Null && b is Null) ==> a.cmp_spec(b) == Ordering::Equal,
{
}

/// Two keys are equal exactly when they are of one variant and, for booleans,
/// numbers and strings, their payloads are equal: numbers by value for
/// finite ones (`0.0` equals `-0.0`), by encoding otherwise. Two arrays, or
/// two objects, are always equal.
pub proof fn lemma_key_equality(a: PairValue, b: PairValue)
    ensures
        a.cmp_spec(b) == Ordering::Equal <==> match (a, b) {
            (PairValue::Null, PairValue::Null) => true,
            (PairValue::Array, PairValue::Array) => true,
            (PairValue::Object, PairValue::Object) => true,
            (PairValue::Bool(x), PairValue::Bool(y)) => x == y,
            (PairValue::Number(x), PairValue::Number(y)) => order_key(x) == order_key(y),
            (PairValue::String(x), PairValue::String(y)) => x@ == y@,
            _ => false,
        },
        (a, b) matches (PairValue::Number(x), PairValue::Number(y)) ==> (is_finite(x)
            && is_finite(y) ==> (a.cmp_spec(b) == Ordering::Equal <==> scaled_value(x)
            == scaled_value(y))),
        (a, b) matches (PairValue::Number(x), PairValue::Number(y)) ==> (!(is_finite(x)
            && is_finite(y)) ==> (a.cmp_spec(b) == Ordering::Equal <==> x == y)),
{
    match (a, b) {
        (PairValue::Number(x), PairValue::Number(y)) => {
            crate::float::lemma_order_key_is_numeric(x, y);
        },
        _ => {},
    }
}

/// A pointer that addresses nothing gives the key `Null`, which comes
/// before every key of another variant and ties with other nulls: in
/// ascending order such documents come first.
pub proof fn lemma_missing_key_sorts_first(other: PairValue)
    ensures
        key_of(None) == PairValue::Null,
        !(other is Null) ==> key_of(None).cmp_spec(other) == Ordering::Less,
        other is Null ==> key_of(None).cmp_spec(other) == Ordering::Equal,
{
}

/// Swapping the keys reverses the comparison.
pub proof fn lemma_cmp_flip(a: PairValue, b: PairValue)
    ensures
        b.cmp_spec(a) == reverse(a.cmp_spec(b)),
        a.cmp_spec(a) == Ordering::Equal,
{
    match (a, b) {
        (PairValue::String(x), PairValue::String(y)) => {
            crate::text::lemma_str_less_total(x@, y@);
        },
        _ => {},
    }
    match a {
        PairValue::String(x) => {
            crate::text::lemma_str_less_total(x@, x@);
        },
        _ => {},
    }
}

/// The order of keys is transitive: two steps that are not descending give
/// a step that is not descending, strict when either step is.
pub proof fn lemma_cmp_transitive(a: PairValue, b: PairValue, c: PairValue)
    ensures
        a.cmp_spec(b) == Ordering::Equal && b.cmp_spec(c) == Ordering::Equal ==> a.cmp_spec(c)
            == Ordering::Equal,
        a.cmp_spec(b) == Ordering::Less && b.cmp_spec(c) != Ordering::Greater ==> a.cmp_spec(c)
            == Ordering::Less,
        a.cmp_spec(b) != Ordering::Greater && b.cmp_spec(c) == Ordering::Less ==> a.cmp_spec(c)
            == Ordering::Less,
{
    match (a, b, c) {
        (PairValue::String(x), PairValue::String(y), PairValue::String(z)) => {
            crate::text::lemma_str_less_total(x@, z@);
            if str_less(x@, y@) && str_less(y@, z@) {
                crate::text::lemma_str_less_transitive(x@, y@, z@);
            }
        },
        _ => {},
    }
}

/// The directed order is transitive in the same way.
pub proof fn lemma_directed_transitive(a: PairValue, b: PairValue, c: PairValue, o: Order)
    ensures
        directed(a.cmp_spec(b), o) == Ordering::Equal && directed(b.cmp_spec(c), o)
            == Ordering::Equal ==> directed(a.cmp_spec(c), o) == Ordering::Equal,
        directed(a.cmp_spec(b), o) == Ordering::Less && directed(b.cmp_spec(c), o)
            != Ordering::Greater ==> directed(a.cmp_spec(c), o) == Ordering::Less,
        directed(a.cmp_spec(b), o) != Ordering::Greater && directed(b.cmp_spec(c), o)
            == Ordering::Less ==> directed(a.cmp_spec(c), o) == Ordering::Less,
{
    lemma_cmp_transitive(a, b, c);
    lemma_cmp_transitive(c, b, a);
    lemma_cmp_flip(a, b);
    lemma_cmp_flip(b, c);
    lemma_cmp_flip(a, c);
}

/// The directed comparison reverses when the keys are swapped.
pub proof fn lemma_directed_flip(a: PairValue, b: PairValue, o: Order)
    ensures
        directed(b.cmp_spec(a), o) == reverse(directed(a.cmp_spec(b), o)),
{
    lemma_cmp_flip(a, b);
}

} // verus!
