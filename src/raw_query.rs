//! The string-matching kind as a query specification names it.
use crate::cond::MatchType as Kind;
use vstd::prelude::*;

verus! {

/// How a `match` condition of a specification tests a string.
#[derive(Debug, PartialEq, Eq, Structural, Clone, Copy)]
pub enum MatchType {
    Contain,
    Regex,
}

impl From<MatchType> for Kind {
    fn from(v: MatchType) -> (r: Kind) {
        match v {
            MatchType::Contain => Kind::Contain,
            MatchType::Regex => Kind::Regex,
        }
    }
}

impl vstd::std_specs::convert::FromSpecImpl<MatchType> for Kind {
    open spec fn obeys_from_spec() -> bool {
        true
    }

    open spec fn from_spec(v: MatchType) -> Kind {
        match v {
            MatchType::Contain => Kind::Contain,
            MatchType::Regex => Kind::Regex,
        }
    }
}

} // verus!
