//! Queries: boolean trees over documents whose leaves test the scalar that a
//! JSON pointer addresses.
use crate::cond::Condition;
use crate::float::{i32_value, to_i32};
use crate::error::{agrees, Error, ErrorCode, Fault, Result};
use crate::json::{document_text, lookup, target_at, Target};
use crate::matcher::RegexCache;
use crate::value::Scalar;
use vstd::prelude::*;
use vstd::string::*;

verus! {

/// The scalar that a pointer's target gives: a missing target is
/// `InvalidPointer`, a container `InvalidTarget`, and a number an `Int` where
/// the double it reads as is an integer in the range of `i32` (`1.0` and
/// `1e2` included), else a `Float`.
pub open spec fn scalar_of(t: Option<Target>) -> core::result::Result<Scalar, Fault> {
    match t {
        None => Err(Fault::InvalidPointer),
        Some(Target::Null) => Ok(Scalar::Null),
        Some(Target::Bool(b)) => Ok(Scalar::Bool(b)),
        Some(Target::Number { bits }) => match i32_value(bits) {
            Some(k) => Ok(Scalar::Int(k as i32)),
            None => Ok(Scalar::Float(bits)),
        },
        Some(Target::String(s)) => Ok(Scalar::String(s)),
        Some(Target::Array) => Err(Fault::InvalidTarget),
        Some(Target::Object) => Err(Fault::InvalidTarget),
    }
}

/// A pointer into the document and the condition on what it addresses.
#[derive(Debug)]
pub struct QueryPair {
    /// JSON pointer to the scalar that `condition` tests.
    pub pointer: String,
    pub condition: Condition,
}

impl QueryPair {
    pub open spec fn sem(&self, doc: serde_json::Value) -> core::result::Result<bool, Fault> {
        match scalar_of(target_at(doc, self.pointer@)) {
            Ok(s) => self.condition.sem(s),
            Err(f) => Err(f),
        }
    }

    /// The text of the error that evaluating this pair on `doc` gives, where
    /// `sem` is an error: the pointer when it finds no scalar, else the
    /// condition's.
    pub open spec fn detail(&self, doc: serde_json::Value) -> Seq<Seq<char>> {
        match scalar_of(target_at(doc, self.pointer@)) {
            Ok(s) => self.condition.detail(s),
            Err(_) => seq![self.pointer@],
        }
    }

    /// The cached patterns after evaluating this pair on `doc`: those of the
    /// condition on the scalar, and none when there is no scalar.
    pub open spec fn cache_effect(&self, doc: serde_json::Value, cached: Seq<Seq<char>>) -> Seq<
        Seq<char>,
    > {
        match scalar_of(target_at(doc, self.pointer@)) {
            Ok(s) => self.condition.cache_effect(s, cached),
            Err(_) => cached,
        }
    }

    /// The scalar for a pointer whose lookup in `doc` gave `target`.
    pub fn scalar_from(pointer: &str, doc: &serde_json::Value, target: Option<Target>) -> (r: Result<
        Scalar,
    >)
        ensures
            scalar_of(target) matches Ok(s) ==> r matches Ok(x) && x == s,
            scalar_of(target) matches Err(f) ==> r matches Err(e) && e.code.fault() == f,
            r matches Err(e) ==> (e.code matches ErrorCode::InvalidPointer { pointer: p, .. }
                && p@ == pointer@) || (e.code matches ErrorCode::InvalidTarget { pointer: p, .. }
                && p@ == pointer@),
            r matches Err(e) ==> e.code.details() == seq![pointer@],
    {
        match target {
            None => Err(
                Error::new(
                    ErrorCode::InvalidPointer {
                        pointer: String::from_str(pointer),
                        value: document_text(doc),
                    },
                ),
            ),
            Some(Target::Null) => Ok(Scalar::Null),
            Some(Target::Bool(b)) => Ok(Scalar::Bool(b)),
            Some(Target::Number { bits }) => match to_i32(bits) {
                Some(k) => Ok(Scalar::Int(k)),
                None => Ok(Scalar::Float(bits)),
            },
            Some(Target::String(s)) => Ok(Scalar::String(s)),
            _ => Err(
                Error::new(
                    ErrorCode::InvalidTarget {
                        pointer: String::from_str(pointer),
                        value: document_text(doc),
                    },
                ),
            ),
        }
    }

    /// The scalar that `pointer` addresses in `v`.
    pub fn to_value(pointer: &str, v: &serde_json::Value) -> (r: Result<Scalar>)
        ensures
            scalar_of(target_at(*v, pointer@)) matches Ok(s) ==> r matches Ok(x) && x == s,
            scalar_of(target_at(*v, pointer@)) matches Err(f) ==> r matches Err(e)
                && e.code.fault() == f,
            r matches Err(e) ==> (e.code matches ErrorCode::InvalidPointer { pointer: p, .. }
                && p@ == pointer@) || (e.code matches ErrorCode::InvalidTarget { pointer: p, .. }
                && p@ == pointer@),
            r matches Err(e) ==> e.code.details() == seq![pointer@],
    {
        let t = lookup(v, pointer);
        QueryPair::scalar_from(pointer, v, t)
    }

    /// Whether the condition holds of the scalar that the pointer addresses.
    pub fn eval(&self, value: &serde_json::Value, cache: &mut RegexCache) -> (r: Result<bool>)
        requires
            old(cache).wf(),
        ensures
            final(cache).wf(),
            agrees(r, self.sem(*value)),
            r matches Err(e) ==> e.code.details() == self.detail(*value),
            final(cache)@ == self.cache_effect(*value, old(cache)@),
    {
        let v = match QueryPair::to_value(self.pointer.as_str(), value) {
            Ok(v) => v,
            Err(e) => return Err(e),
        };
        self.condition.eval(&v, cache)
    }
}

/// A node of a query.
#[derive(Debug)]
pub enum QueryCondition {
    /// A pointer and a condition on its scalar.
    Raw(QueryPair),
    /// Holds if the query does not.
    Not(Box<QueryCondition>),
    /// Holds if all the queries hold.
    And(Vec<QueryCondition>),
    /// Holds if at least one of the queries holds.
    Or(Vec<QueryCondition>),
}

impl QueryCondition {
    /// What evaluating this query on `doc` gives.
    pub open spec fn sem(&self, doc: serde_json::Value) -> core::result::Result<bool, Fault>
        decreases self, 0int,
    {
        match self {
            QueryCondition::Raw(p) => p.sem(doc),
            QueryCondition::Not(c) => match c.sem(doc) {
                Ok(b) => Ok(!b),
                Err(f) => Err(f),
            },
            QueryCondition::And(cs) => if cs.len() == 0 {
                Err(Fault::NoChildren)
            } else {
                QueryCondition::all_from(cs@, 0, doc)
            },
            QueryCondition::Or(cs) => if cs.len() == 0 {
                Err(Fault::NoChildren)
            } else {
                QueryCondition::any_from(cs@, 0, doc)
            },
        }
    }

    /// Conjunction of `cs[i..]` evaluated in order: the first failure or
    /// `false` decides.
    pub open spec fn all_from(
        cs: Seq<QueryCondition>,
        i: int,
        doc: serde_json::Value,
    ) -> core::result::Result<bool, Fault>
        decreases cs, cs.len() - i,
    {
        if i < 0 || i >= cs.len() {
            Ok(true)
        } else {
            match cs[i].sem(doc) {
                Ok(true) => QueryCondition::all_from(cs, i + 1, doc),
                other => other,
            }
        }
    }

    /// Disjunction of `cs[i..]` evaluated in order: the first failure or
    /// `true` decides.
    pub open spec fn any_from(
        cs: Seq<QueryCondition>,
        i: int,
        doc: serde_json::Value,
    ) -> core::result::Result<bool, Fault>
        decreases cs, cs.len() - i,
    {
        if i < 0 || i >= cs.len() {
            Ok(false)
        } else {
            match cs[i].sem(doc) {
                Ok(false) => QueryCondition::any_from(cs, i + 1, doc),
                other => other,
            }
        }
    }

    /// The name of the node kind.
    pub open spec fn node_label(&self) -> Seq<char> {
        match self {
            QueryCondition::Raw(_) => "QueryCondition::Raw"@,
            QueryCondition::Not(_) => "QueryCondition::Not"@,
            QueryCondition::And(_) => "QueryCondition::And"@,
            QueryCondition::Or(_) => "QueryCondition::Or"@,
        }
    }

    /// The text of the error that evaluating this query on `doc` gives, where
    /// `sem` is an error: a leaf's own, an empty `And` or `Or` the node, and a
    /// `Not`, `And` or `Or` that of the child that decided.
    pub open spec fn detail(&self, doc: serde_json::Value) -> Seq<Seq<char>>
        decreases self, 0int,
    {
        match self {
            QueryCondition::Raw(p) => p.detail(doc),
            QueryCondition::Not(c) => c.detail(doc),
            QueryCondition::And(cs) => if cs.len() == 0 {
                seq![self.node_label()]
            } else {
                QueryCondition::all_detail(cs@, 0, doc)
            },
            QueryCondition::Or(cs) => if cs.len() == 0 {
                seq![self.node_label()]
            } else {
                QueryCondition::any_detail(cs@, 0, doc)
            },
        }
    }

    /// The error text of `cs[i..]` evaluated as a conjunction.
    pub open spec fn all_detail(cs: Seq<QueryCondition>, i: int, doc: serde_json::Value) -> Seq<
        Seq<char>,
    >
        decreases cs, cs.len() - i,
    {
        if i < 0 || i >= cs.len() {
            Seq::empty()
        } else {
            match cs[i].sem(doc) {
                Ok(true) => QueryCondition::all_detail(cs, i + 1, doc),
                _ => cs[i].detail(doc),
            }
        }
    }

    /// The error text of `cs[i..]` evaluated as a disjunction.
    pub open spec fn any_detail(cs: Seq<QueryCondition>, i: int, doc: serde_json::Value) -> Seq<
        Seq<char>,
    >
        decreases cs, cs.len() - i,
    {
        if i < 0 || i >= cs.len() {
            Seq::empty()
        } else {
            match cs[i].sem(doc) {
                Ok(false) => QueryCondition::any_detail(cs, i + 1, doc),
                _ => cs[i].detail(doc),
            }
        }
    }

    /// The cached patterns after evaluating this query on `doc`, starting
    /// from `cached`: each regular expression that evaluation tests, in
    /// order, and none of the children that short-circuiting skips.
    pub open spec fn cache_effect(&self, doc: serde_json::Value, cached: Seq<Seq<char>>) -> Seq<
        Seq<char>,
    >
        decreases self, 0int,
    {
        match self {
            QueryCondition::Raw(p) => p.cache_effect(doc, cached),
            QueryCondition::Not(c) => c.cache_effect(doc, cached),
            QueryCondition::And(cs) => QueryCondition::all_cache(cs@, 0, doc, cached),
            QueryCondition::Or(cs) => QueryCondition::any_cache(cs@, 0, doc, cached),
        }
    }

    /// The cache effect of evaluating `cs[i..]` as a conjunction.
    pub open spec fn all_cache(
        cs: Seq<QueryCondition>,
        i: int,
        doc: serde_json::Value,
        cached: Seq<Seq<char>>,
    ) -> Seq<Seq<char>>
        decreases cs, cs.len() - i,
    {
        if i < 0 || i >= cs.len() {
            cached
        } else {
            let next = cs[i].cache_effect(doc, cached);
            match cs[i].sem(doc) {
                Ok(true) => QueryCondition::all_cache(cs, i + 1, doc, next),
                _ => next,
            }
        }
    }

    /// The cache effect of evaluating `cs[i..]` as a disjunction.
    pub open spec fn any_cache(
        cs: Seq<QueryCondition>,
        i: int,
        doc: serde_json::Value,
        cached: Seq<Seq<char>>,
    ) -> Seq<Seq<char>>
        decreases cs, cs.len() - i,
    {
        if i < 0 || i >= cs.len() {
            cached
        } else {
            let next = cs[i].cache_effect(doc, cached);
            match cs[i].sem(doc) {
                Ok(false) => QueryCondition::any_cache(cs, i + 1, doc, next),
                _ => next,
            }
        }
    }

    fn node_name(&self) -> (r: String)
        ensures
            r@ == self.node_label(),
    {
        match self {
            QueryCondition::Raw(_) => String::from_str("QueryCondition::Raw"),
            QueryCondition::Not(_) => String::from_str("QueryCondition::Not"),
            QueryCondition::And(_) => String::from_str("QueryCondition::And"),
            QueryCondition::Or(_) => String::from_str("QueryCondition::Or"),
        }
    }

    /// Whether the document satisfies this query.
    pub fn eval(&self, value: &serde_json::Value, cache: &mut RegexCache) -> (r: Result<bool>)
        requires
            old(cache).wf(),
        ensures
            final(cache).wf(),
            agrees(r, self.sem(*value)),
            r matches Err(e) ==> e.code.details() == self.detail(*value),
            final(cache)@ == self.cache_effect(*value, old(cache)@),
        decreases self, 1int,
    {
        match self {
            QueryCondition::Raw(p) => p.eval(value, cache),
            QueryCondition::Not(c) => match c.eval(value, cache) {
                Ok(b) => Ok(!b),
                Err(e) => Err(e),
            },
            QueryCondition::And(cs) => {
                if cs.len() == 0 {
                    proof {
                        assert(QueryCondition::all_cache(cs@, 0, *value, cache@) == cache@);
                    }
                    return Err(Error::new(ErrorCode::NoChildren { by: self.node_name() }));
                }
                QueryCondition::all(cs, value, cache)
            },
            QueryCondition::Or(cs) => {
                if cs.len() == 0 {
                    proof {
                        assert(QueryCondition::any_cache(cs@, 0, *value, cache@) == cache@);
                    }
                    return Err(Error::new(ErrorCode::NoChildren { by: self.node_name() }));
                }
                QueryCondition::any(cs, value, cache)
            },
        }
    }

    fn all(cs: &Vec<QueryCondition>, value: &serde_json::Value, cache: &mut RegexCache) -> (r:
        Result<bool>)
        requires
            old(cache).wf(),
        ensures
            final(cache).wf(),
            agrees(r, QueryCondition::all_from(cs@, 0, *value)),
            r matches Err(e) ==> e.code.details() == QueryCondition::all_detail(cs@, 0, *value),
            final(cache)@ == QueryCondition::all_cache(cs@, 0, *value, old(cache)@),
        decreases cs, 0int,
    {
        let mut i: usize = 0;
        while i < cs.len()
            invariant
                i <= cs@.len(),
                cache.wf(),
                QueryCondition::all_cache(cs@, 0, *value, old(cache)@) == QueryCondition::all_cache(
                    cs@,
                    i as int,
                    *value,
                    cache@,
                ),
                QueryCondition::all_from(cs@, 0, *value) == QueryCondition::all_from(
                    cs@,
                    i as int,
                    *value,
                ),
                QueryCondition::all_detail(cs@, 0, *value) == QueryCondition::all_detail(
                    cs@,
                    i as int,
                    *value,
                ),
            decreases cs@.len() - i,
        {
            let x = cs[i].eval(value, cache);
            match x {
                Ok(true) => {},
                _ => return x,
            }
            i = i + 1;
        }
        Ok(true)
    }

    fn any(cs: &Vec<QueryCondition>, value: &serde_json::Value, cache: &mut RegexCache) -> (r:
        Result<bool>)
        requires
            old(cache).wf(),
        ensures
            final(cache).wf(),
            agrees(r, QueryCondition::any_from(cs@, 0, *value)),
            r matches Err(e) ==> e.code.details() == QueryCondition::any_detail(cs@, 0, *value),
            final(cache)@ == QueryCondition::any_cache(cs@, 0, *value, old(cache)@),
        decreases cs, 0int,
    {
        let mut i: usize = 0;
        while i < cs.len()
            invariant
                i <= cs@.len(),
                cache.wf(),
                QueryCondition::any_cache(cs@, 0, *value, old(cache)@) == QueryCondition::any_cache(
                    cs@,
                    i as int,
                    *value,
                    cache@,
                ),
                QueryCondition::any_from(cs@, 0, *value) == QueryCondition::any_from(
                    cs@,
                    i as int,
                    *value,
                ),
                QueryCondition::any_detail(cs@, 0, *value) == QueryCondition::any_detail(
                    cs@,
                    i as int,
                    *value,
                ),
            decreases cs@.len() - i,
        {
            let x = cs[i].eval(value, cache);
            match x {
                Ok(false) => {},
                _ => return x,
            }
            i = i + 1;
        }
        Ok(false)
    }
}

/// A filter on documents.
#[derive(Debug)]
pub struct Query {
    pub query: QueryCondition,
}

impl Query {
    /// Whether the document satisfies the query.
    pub fn eval(&self, value: &serde_json::Value, cache: &mut RegexCache) -> (r: Result<bool>)
        requires
            old(cache).wf(),
        ensures
            final(cache).wf(),
            agrees(r, self.query.sem(*value)),
            r matches Err(e) ==> e.code.details() == self.query.detail(*value),
            final(cache)@ == self.query.cache_effect(*value, old(cache)@),
    {
        self.query.eval(value, cache)
    }
}

#[verifier::spinoff_prover]
#[verifier::rlimit(30)]
proof fn lemma_all_from_docs(cs: Seq<QueryCondition>, i: int, doc: serde_json::Value)
    requires
        0 <= i <= cs.len(),
    ensures
        (forall|k: int| i <= k < cs.len() ==> #[trigger] cs[k].sem(doc) == Ok::<bool, Fault>(true))
            ==> QueryCondition::all_from(cs, i, doc) == Ok::<bool, Fault>(true),
        forall|k: int|
            i <= k < cs.len() && #[trigger] cs[k].sem(doc) != Ok::<bool, Fault>(true) && (forall|j: int|
                i <= j < k ==> cs[j].sem(doc) == Ok::<bool, Fault>(true)) ==> QueryCondition::all_from(
                cs,
                i,
                doc,
            ) == cs[k].sem(doc),
    decreases cs.len() - i,
{
    if i < cs.len() {
        lemma_all_from_docs(cs, i + 1, doc);
        if forall|k: int| i <= k < cs.len() ==> #[trigger] cs[k].sem(doc) == Ok::<bool, Fault>(true) {
            assert(cs[i].sem(doc) == Ok::<bool, Fault>(true));
        }
    }
}

#[verifier::spinoff_prover]
#[verifier::rlimit(30)]
proof fn lemma_any_from_docs(cs: Seq<QueryCondition>, i: int, doc: serde_json::Value)
    requires
        0 <= i <= cs.len(),
    ensures
        (forall|k: int| i <= k < cs.len() ==> #[trigger] cs[k].sem(doc) == Ok::<bool, Fault>(false))
            ==> QueryCondition::any_from(cs, i, doc) == Ok::<bool, Fault>(false),
        forall|k: int|
            i <= k < cs.len() && #[trigger] cs[k].sem(doc) != Ok::<bool, Fault>(false) && (forall|
                j: int,
            | i <= j < k ==> cs[j].sem(doc) == Ok::<bool, Fault>(false)) ==> QueryCondition::any_from(
                cs,
                i,
                doc,
            ) == cs[k].sem(doc),
    decreases cs.len() - i,
{
    if i < cs.len() {
        lemma_any_from_docs(cs, i + 1, doc);
        if forall|k: int| i <= k < cs.len() ==> #[trigger] cs[k].sem(doc) == Ok::<bool, Fault>(false) {
            assert(cs[i].sem(doc) == Ok::<bool, Fault>(false));
        }
    }
}

/// Short-circuit evaluation of a non-empty query `And` gives what evaluating every
/// child and folding with boolean "and" gives: `true` when every child is
/// `true`, and otherwise the outcome of the first child that is `false` or
/// fails, that child's error included.
pub proof fn lemma_query_and_short_circuit(cs: Vec<QueryCondition>, doc: serde_json::Value)
    requires
        cs.len() >= 1,
    ensures
        (forall|k: int| 0 <= k < cs.len() ==> #[trigger] cs@[k].sem(doc) == Ok::<bool, Fault>(true))
            ==> QueryCondition::And(cs).sem(doc) == Ok::<bool, Fault>(true),
        forall|k: int|
            0 <= k < cs.len() && #[trigger] cs@[k].sem(doc) != Ok::<bool, Fault>(true) && (forall|
                j: int,
            | 0 <= j < k ==> cs@[j].sem(doc) == Ok::<bool, Fault>(true)) ==> QueryCondition::And(cs).sem(doc)
                == cs@[k].sem(doc),
{
    lemma_all_from_docs(cs@, 0, doc);
}

/// Short-circuit evaluation of a non-empty query `Or` gives what evaluating every
/// child and folding with boolean "or" gives: `false` when every child is
/// `false`, and otherwise the outcome of the first child that is `true` or
/// fails, that child's error included.
pub proof fn lemma_query_or_short_circuit(cs: Vec<QueryCondition>, doc: serde_json::Value)
    requires
        cs.len() >= 1,
    ensures
        (forall|k: int| 0 <= k < cs.len() ==> #[trigger] cs@[k].sem(doc) == Ok::<bool, Fault>(false))
            ==> QueryCondition::Or(cs).sem(doc) == Ok::<bool, Fault>(false),
        forall|k: int|
            0 <= k < cs.len() && #[trigger] cs@[k].sem(doc) != Ok::<bool, Fault>(false) && (forall|
                j: int,
            | 0 <= j < k ==> cs@[j].sem(doc) == Ok::<bool, Fault>(false)) ==> QueryCondition::Or(cs).sem(doc)
                == cs@[k].sem(doc),
{
    lemma_any_from_docs(cs@, 0, doc);
}

/// A query `And` or `Or` without children fails with `NoChildren` on every
/// document.
pub proof fn lemma_query_empty_compound_fails(cs: Vec<QueryCondition>, doc: serde_json::Value)
    requires
        cs.len() == 0,
    ensures
        QueryCondition::And(cs).sem(doc) == Err::<bool, Fault>(Fault::NoChildren),
        QueryCondition::Or(cs).sem(doc) == Err::<bool, Fault>(Fault::NoChildren),
{
}

} // verus!
