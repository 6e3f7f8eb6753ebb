//! Conditions on a scalar: comparison, string matching, negation,
//! conjunction and disjunction.
use crate::error::{agrees, Error, ErrorCode, Fault, Result};
use crate::matcher::{cache_after, regex_outcome, Matcher, RegexCache};
use crate::text::occurs_in;
use crate::value::Scalar;
use vstd::prelude::*;
use vstd::string::*;

verus! {

/// How a `Match` condition tests a string.
#[derive(Debug, PartialEq, Eq, Structural, Clone, Copy)]
pub enum MatchType {
    /// Substring.
    Contain,
    /// Regular expression.
    Regex,
}

/// A condition on a scalar.
#[derive(Debug)]
pub enum Condition {
    /// Holds if the scalar is equal to the value.
    Equal(Scalar),
    /// Holds if the scalar is greater than the value.
    GreaterThan(Scalar),
    /// Holds if the scalar is less than the value.
    LessThan(Scalar),
    /// String matching, with the value as the pattern.
    Match(Scalar, MatchType),
    /// Holds if the condition does not.
    Not(Box<Condition>),
    /// Holds if all the conditions hold.
    And(Vec<Condition>),
    /// Holds if at least one of the conditions holds.
    Or(Vec<Condition>),
}

/// What a `Match` of `pattern` by `kind` gives on `target`.
pub open spec fn match_outcome(pattern: Scalar, kind: MatchType, target: Scalar) -> core::result::Result<
    bool,
    Fault,
> {
    match (pattern, target) {
        (Scalar::String(p), Scalar::String(t)) => match kind {
            MatchType::Contain => Ok(occurs_in(p@, t@)),
            MatchType::Regex => regex_outcome(p@, t@),
        },
        _ => Err(Fault::MatcherTypeMismatch),
    }
}

impl Condition {
    /// What evaluating this condition on `v` gives.
    pub open spec fn sem(&self, v: Scalar) -> core::result::Result<bool, Fault>
        decreases self, 0int,
    {
        match self {
            Condition::Equal(l) => if l.rank() == v.rank() {
                Ok(l.equals(v))
            } else {
                Err(Fault::TypeMismatch)
            },
            Condition::GreaterThan(l) => if l.rank() == v.rank() && l.is_ordered() {
                Ok(l.below(v))
            } else {
                Err(Fault::TypeMismatch)
            },
            Condition::LessThan(l) => if l.rank() == v.rank() && l.is_ordered() {
                Ok(v.below(*l))
            } else {
                Err(Fault::TypeMismatch)
            },
            Condition::Match(l, t) => match_outcome(*l, *t, v),
            Condition::Not(c) => match c.sem(v) {
                Ok(b) => Ok(!b),
                Err(f) => Err(f),
            },
            Condition::And(cs) => if cs.len() == 0 {
                Err(Fault::NoChildren)
            } else {
                Condition::all_from(cs@, 0, v)
            },
            Condition::Or(cs) => if cs.len() == 0 {
                Err(Fault::NoChildren)
            } else {
                Condition::any_from(cs@, 0, v)
            },
        }
    }

    /// Conjunction of `cs[i..]` evaluated in order: the first failure or
    /// `false` decides.
    pub open spec fn all_from(cs: Seq<Condition>, i: int, v: Scalar) -> core::result::Result<
        bool,
        Fault,
    >
        decreases cs, cs.len() - i,
    {
        if i < 0 || i >= cs.len() {
            Ok(true)
        } else {
            match cs[i].sem(v) {
                Ok(true) => Condition::all_from(cs, i + 1, v),
                other => other,
            }
        }
    }

    /// Disjunction of `cs[i..]` evaluated in order: the first failure or
    /// `true` decides.
    pub open spec fn any_from(cs: Seq<Condition>, i: int, v: Scalar) -> core::result::Result<
        bool,
        Fault,
    >
        decreases cs, cs.len() - i,
    {
        if i < 0 || i >= cs.len() {
            Ok(false)
        } else {
            match cs[i].sem(v) {
                Ok(false) => Condition::any_from(cs, i + 1, v),
                other => other,
            }
        }
    }
}

/// The cached patterns after a `Match` of `pattern` by `kind` on `target`
/// starting from `cached`: only a regular expression tested on a string
/// touches the cache.
pub open spec fn match_cache(
    pattern: Scalar,
    kind: MatchType,
    target: Scalar,
    cached: Seq<Seq<char>>,
) -> Seq<Seq<char>> {
    match (pattern, target, kind) {
        (Scalar::String(p), Scalar::String(_), MatchType::Regex) => cache_after(cached, p@),
        _ => cached,
    }
}

impl Condition {
    /// The cached patterns after evaluating this condition on `v`, starting
    /// from `cached`: each regular expression that evaluation tests, in
    /// order, and none of the children that short-circuiting skips.
    pub open spec fn cache_effect(&self, v: Scalar, cached: Seq<Seq<char>>) -> Seq<Seq<char>>
        decreases self, 0int,
    {
        match self {
            Condition::Match(l, t) => match_cache(*l, *t, v, cached),
            Condition::Not(c) => c.cache_effect(v, cached),
            Condition::And(cs) => Condition::all_cache(cs@, 0, v, cached),
            Condition::Or(cs) => Condition::any_cache(cs@, 0, v, cached),
            _ => cached,
        }
    }

    /// The cache effect of evaluating `cs[i..]` as a conjunction.
    pub open spec fn all_cache(cs: Seq<Condition>, i: int, v: Scalar, cached: Seq<Seq<char>>) -> Seq<
        Seq<char>,
    >
        decreases cs, cs.len() - i,
    {
        if i < 0 || i >= cs.len() {
            cached
        } else {
            let next = cs[i].cache_effect(v, cached);
            match cs[i].sem(v) {
                Ok(true) => Condition::all_cache(cs, i + 1, v, next),
                _ => next,
            }
        }
    }

    /// The cache effect of evaluating `cs[i..]` as a disjunction.
    pub open spec fn any_cache(cs: Seq<Condition>, i: int, v: Scalar, cached: Seq<Seq<char>>) -> Seq<
        Seq<char>,
    >
        decreases cs, cs.len() - i,
    {
        if i < 0 || i >= cs.len() {
            cached
        } else {
            let next = cs[i].cache_effect(v, cached);
            match cs[i].sem(v) {
                Ok(false) => Condition::any_cache(cs, i + 1, v, next),
                _ => next,
            }
        }
    }
}

impl Condition {
    /// The name of the node kind.
    pub open spec fn node_label(&self) -> Seq<char> {
        match self {
            Condition::Equal(_) => "Condition::Equal"@,
            Condition::GreaterThan(_) => "Condition::GreaterThan"@,
            Condition::LessThan(_) => "Condition::LessThan"@,
            Condition::Match(_, _) => "Condition::Match"@,
            Condition::Not(_) => "Condition::Not"@,
            Condition::And(_) => "Condition::And"@,
            Condition::Or(_) => "Condition::Or"@,
        }
    }

    /// The text of the error that evaluating this condition on `v` gives,
    /// where `sem` is an error: a comparison names the operands' variants
    /// and the node, a `Match` the pattern it could not compile or, on
    /// operands that are not both strings, its kind, the operands' variants
    /// and the node, an empty `And` or `Or` the node; a `Not`, `And` or `Or`
    /// hands on the error of the child that decided.
    pub open spec fn detail(&self, v: Scalar) -> Seq<Seq<char>>
        decreases self, 0int,
    {
        match self {
            Condition::Equal(l) => seq![v.variant_label(), l.variant_label(), self.node_label()],
            Condition::GreaterThan(l) => seq![v.variant_label(), l.variant_label(), self.node_label()],
            Condition::LessThan(l) => seq![v.variant_label(), l.variant_label(), self.node_label()],
            Condition::Match(l, t) => match (*l, v) {
                (Scalar::String(p), Scalar::String(_)) => seq![p@],
                _ => seq![
                    match t {
                        MatchType::Contain => "Contain"@,
                        MatchType::Regex => "Regex"@,
                    },
                    l.variant_label(),
                    v.variant_label(),
                    self.node_label(),
                ],
            },
            Condition::Not(c) => c.detail(v),
            Condition::And(cs) => if cs.len() == 0 {
                seq![self.node_label()]
            } else {
                Condition::all_detail(cs@, 0, v)
            },
            Condition::Or(cs) => if cs.len() == 0 {
                seq![self.node_label()]
            } else {
                Condition::any_detail(cs@, 0, v)
            },
        }
    }

    /// The error text of `cs[i..]` evaluated as a conjunction.
    pub open spec fn all_detail(cs: Seq<Condition>, i: int, v: Scalar) -> Seq<Seq<char>>
        decreases cs, cs.len() - i,
    {
        if i < 0 || i >= cs.len() {
            Seq::empty()
        } else {
            match cs[i].sem(v) {
                Ok(true) => Condition::all_detail(cs, i + 1, v),
                _ => cs[i].detail(v),
            }
        }
    }

    /// The error text of `cs[i..]` evaluated as a disjunction.
    pub open spec fn any_detail(cs: Seq<Condition>, i: int, v: Scalar) -> Seq<Seq<char>>
        decreases cs, cs.len() - i,
    {
        if i < 0 || i >= cs.len() {
            Seq::empty()
        } else {
            match cs[i].sem(v) {
                Ok(false) => Condition::any_detail(cs, i + 1, v),
                _ => cs[i].detail(v),
            }
        }
    }
}

impl Condition {
    /// The name of the node kind, for diagnostics.
    fn node_name(&self) -> (r: String)
        ensures
            r@ == self.node_label(),
    {
        match self {
            Condition::Equal(_) => String::from_str("Condition::Equal"),
            Condition::GreaterThan(_) => String::from_str("Condition::GreaterThan"),
            Condition::LessThan(_) => String::from_str("Condition::LessThan"),
            Condition::Match(_, _) => String::from_str("Condition::Match"),
            Condition::Not(_) => String::from_str("Condition::Not"),
            Condition::And(_) => String::from_str("Condition::And"),
            Condition::Or(_) => String::from_str("Condition::Or"),
        }
    }

    fn mismatch(&self, want: &Scalar, got: &Scalar) -> (r: Error)
        ensures
            r.code.fault() == Fault::TypeMismatch,
            r.code.details() == seq![got.variant_label(), want.variant_label(), self.node_label()],
    {
        Error::new(
            ErrorCode::TypeMismatch {
                got: got.variant_name(),
                want: want.variant_name(),
                by: self.node_name(),
            },
        )
    }

    /// Whether this condition holds of `value`.
    pub fn eval(&self, value: &Scalar, cache: &mut RegexCache) -> (r: Result<bool>)
        requires
            old(cache).wf(),
        ensures
            final(cache).wf(),
            agrees(r, self.sem(*value)),
            r matches Err(e) ==> e.code.details() == self.detail(*value),
            final(cache)@ == self.cache_effect(*value, old(cache)@),
        decreases self, 1int,
    {
        match self {
            Condition::Equal(_) => self.equal(value),
            Condition::GreaterThan(_) => self.greater_than(value),
            Condition::LessThan(_) => self.less_than(value),
            Condition::Match(_, _) => self.test(value, cache),
            Condition::Not(c) => match c.eval(value, cache) {
                Ok(b) => Ok(!b),
                Err(e) => Err(e),
            },
            Condition::And(cs) => {
                if cs.len() == 0 {
                    proof {
                        assert(Condition::all_cache(cs@, 0, *value, cache@) == cache@);
                    }
                    return Err(Error::new(ErrorCode::NoChildren { by: self.node_name() }));
                }
                Condition::all(cs, value, cache)
            },
            Condition::Or(cs) => {
                if cs.len() == 0 {
                    proof {
                        assert(Condition::any_cache(cs@, 0, *value, cache@) == cache@);
                    }
                    return Err(Error::new(ErrorCode::NoChildren { by: self.node_name() }));
                }
                Condition::any(cs, value, cache)
            },
        }
    }

    fn all(cs: &Vec<Condition>, value: &Scalar, cache: &mut RegexCache) -> (r: Result<bool>)
        requires
            old(cache).wf(),
        ensures
            final(cache).wf(),
            agrees(r, Condition::all_from(cs@, 0, *value)),
            r matches Err(e) ==> e.code.details() == Condition::all_detail(cs@, 0, *value),
            final(cache)@ == Condition::all_cache(cs@, 0, *value, old(cache)@),
        decreases cs, 0int,
    {
        let mut i: usize = 0;
        while i < cs.len()
            invariant
                i <= cs@.len(),
                cache.wf(),
                Condition::all_cache(cs@, 0, *value, old(cache)@) == Condition::all_cache(
                    cs@,
                    i as int,
                    *value,
                    cache@,
                ),
                Condition::all_from(cs@, 0, *value) == Condition::all_from(cs@, i as int, *value),
                Condition::all_detail(cs@, 0, *value) == Condition::all_detail(cs@, i as int, *value),
            decreases cs@.len() - i,
        {
            let x = cs[i].eval(value, cache);
            match x {
                Ok(true) => {},
                _ => return x,
            }
            i = i + 1;
        }
        Ok(true)
    }

    fn any(cs: &Vec<Condition>, value: &Scalar, cache: &mut RegexCache) -> (r: Result<bool>)
        requires
            old(cache).wf(),
        ensures
            final(cache).wf(),
            agrees(r, Condition::any_from(cs@, 0, *value)),
            r matches Err(e) ==> e.code.details() == Condition::any_detail(cs@, 0, *value),
            final(cache)@ == Condition::any_cache(cs@, 0, *value, old(cache)@),
        decreases cs, 0int,
    {
        let mut i: usize = 0;
        while i < cs.len()
            invariant
                i <= cs@.len(),
                cache.wf(),
                Condition::any_cache(cs@, 0, *value, old(cache)@) == Condition::any_cache(
                    cs@,
                    i as int,
                    *value,
                    cache@,
                ),
                Condition::any_from(cs@, 0, *value) == Condition::any_from(cs@, i as int, *value),
                Condition::any_detail(cs@, 0, *value) == Condition::any_detail(cs@, i as int, *value),
            decreases cs@.len() - i,
        {
            let x = cs[i].eval(value, cache);
            match x {
                Ok(false) => {},
                _ => return x,
            }
            i = i + 1;
        }
        Ok(false)
    }

    /// An `Equal` node: whether `r` equals its value.
    pub fn equal(&self, r: &Scalar) -> (res: Result<bool>)
        ensures
            self is Equal ==> agrees(res, self.sem(*r)),
            self is Equal ==> (res matches Err(e) ==> e.code.details() == self.detail(*r)),
            !(self is Equal) ==> agrees(res, Err(Fault::Unreachable)),
    {
        match self {
            Condition::Equal(l) => if l.same_variant(r) {
                Ok(l.equal_to(r))
            } else {
                Err(self.mismatch(l, r))
            },
            _ => Err(Error::unreachable()),
        }
    }

    fn is_ordered(v: &Scalar) -> (r: bool)
        ensures
            r == v.is_ordered(),
    {
        match v {
            Scalar::Null => false,
            _ => true,
        }
    }

    /// A `GreaterThan` node: whether `r` is greater than its value.
    pub fn greater_than(&self, r: &Scalar) -> (res: Result<bool>)
        ensures
            self is GreaterThan ==> agrees(res, self.sem(*r)),
            self is GreaterThan ==> (res matches Err(e) ==> e.code.details() == self.detail(*r)),
            !(self is GreaterThan) ==> agrees(res, Err(Fault::Unreachable)),
    {
        match self {
            Condition::GreaterThan(l) => if l.same_variant(r) && Condition::is_ordered(l) {
                Ok(l.less_than(r))
            } else {
                Err(self.mismatch(l, r))
            },
            _ => Err(Error::unreachable()),
        }
    }

    /// A `LessThan` node: whether `r` is less than its value.
    pub fn less_than(&self, r: &Scalar) -> (res: Result<bool>)
        ensures
            self is LessThan ==> agrees(res, self.sem(*r)),
            self is LessThan ==> (res matches Err(e) ==> e.code.details() == self.detail(*r)),
            !(self is LessThan) ==> agrees(res, Err(Fault::Unreachable)),
    {
        match self {
            Condition::LessThan(l) => if l.same_variant(r) && Condition::is_ordered(l) {
                Ok(r.less_than(l))
            } else {
                Err(self.mismatch(l, r))
            },
            _ => Err(Error::unreachable()),
        }
    }

    /// A `Match` node: whether the string `r` matches its pattern.
    pub fn test(&self, r: &Scalar, cache: &mut RegexCache) -> (res: Result<bool>)
        requires
            old(cache).wf(),
        ensures
            final(cache).wf(),
            self is Match ==> agrees(res, self.sem(*r)),
            self is Match ==> (res matches Err(e) ==> e.code.details() == self.detail(*r)),
            self is Match ==> final(cache)@ == self.cache_effect(*r, old(cache)@),
            !(self is Match) ==> final(cache)@ == old(cache)@,
            self matches Condition::Match(Scalar::String(p), MatchType::Regex) ==> (r is String ==> (
            res matches Err(e) ==> (e.code matches ErrorCode::InvalidRegex(q) && q@ == p@))),
            !(self is Match) ==> agrees(res, Err(Fault::Unreachable)),
    {
        match self {
            Condition::Match(l, t) => match (l, r) {
                (Scalar::String(x), Scalar::String(y)) => match t {
                    MatchType::Contain => Matcher::Raw(x.as_str()).test(cache, y.as_str()),
                    MatchType::Regex => Matcher::Regex(x.as_str()).test(cache, y.as_str()),
                },
                _ => Err(
                    Error::new(
                        ErrorCode::MatcherTypeMismatch {
                            matcher_type: match t {
                                MatchType::Contain => String::from_str("Contain"),
                                MatchType::Regex => String::from_str("Regex"),
                            },
                            matcher_value: l.variant_name(),
                            target: r.variant_name(),
                            by: self.node_name(),
                        },
                    ),
                ),
            },
            _ => Err(Error::unreachable()),
        }
    }
}

#[verifier::rlimit(40)]
proof fn lemma_all_from(cs: Seq<Condition>, i: int, v: Scalar)
    requires
        0 <= i <= cs.len(),
    ensures
        (forall|k: int| i <= k < cs.len() ==> #[trigger] cs[k].sem(v) == Ok::<bool, Fault>(true))
            ==> Condition::all_from(cs, i, v) == Ok::<bool, Fault>(true),
        forall|k: int|
            i <= k < cs.len() && #[trigger] cs[k].sem(v) != Ok::<bool, Fault>(true) && (forall|j: int|
                i <= j < k ==> cs[j].sem(v) == Ok::<bool, Fault>(true)) ==> Condition::all_from(
                cs,
                i,
                v,
            ) == cs[k].sem(v),
    decreases cs.len() - i,
{
    if i < cs.len() {
        lemma_all_from(cs, i + 1, v);
        if forall|k: int| i <= k < cs.len() ==> #[trigger] cs[k].sem(v) == Ok::<bool, Fault>(true) {
            assert(cs[i].sem(v) == Ok::<bool, Fault>(true));
        }
    }
}

#[verifier::rlimit(40)]
proof fn lemma_any_from(cs: Seq<Condition>, i: int, v: Scalar)
    requires
        0 <= i <= cs.len(),
    ensures
        (forall|k: int| i <= k < cs.len() ==> #[trigger] cs[k].sem(v) == Ok::<bool, Fault>(false))
            ==> Condition::any_from(cs, i, v) == Ok::<bool, Fault>(false),
        forall|k: int|
            i <= k < cs.len() && #[trigger] cs[k].sem(v) != Ok::<bool, Fault>(false) && (forall|
                j: int,
            | i <= j < k ==> cs[j].sem(v) == Ok::<bool, Fault>(false)) ==> Condition::any_from(
                cs,
                i,
                v,
            ) == cs[k].sem(v),
    decreases cs.len() - i,
{
    if i < cs.len() {
        lemma_any_from(cs, i + 1, v);
        if forall|k: int| i <= k < cs.len() ==> #[trigger] cs[k].sem(v) == Ok::<bool, Fault>(false) {
            assert(cs[i].sem(v) == Ok::<bool, Fault>(false));
        }
    }
}

/// Short-circuit evaluation of a non-empty `And` gives what evaluating every
/// child and folding with boolean "and" gives: `true` when every child is
/// `true`, and otherwise the outcome of the first child that is `false` or
/// fails, that child's error included.
pub proof fn lemma_and_short_circuit(cs: Vec<Condition>, v: Scalar)
    requires
        cs.len() >= 1,
    ensures
        (forall|k: int| 0 <= k < cs.len() ==> #[trigger] cs@[k].sem(v) == Ok::<bool, Fault>(true))
            ==> Condition::And(cs).sem(v) == Ok::<bool, Fault>(true),
        forall|k: int|
            0 <= k < cs.len() && #[trigger] cs@[k].sem(v) != Ok::<bool, Fault>(true) && (forall|
                j: int,
            | 0 <= j < k ==> cs@[j].sem(v) == Ok::<bool, Fault>(true)) ==> Condition::And(cs).sem(v)
                == cs@[k].sem(v),
{
    lemma_all_from(cs@, 0, v);
}

/// Short-circuit evaluation of a non-empty `Or` gives what evaluating every
/// child and folding with boolean "or" gives: `false` when every child is
/// `false`, and otherwise the outcome of the first child that is `true` or
/// fails, that child's error included.
pub proof fn lemma_or_short_circuit(cs: Vec<Condition>, v: Scalar)
    requires
        cs.len() >= 1,
    ensures
        (forall|k: int| 0 <= k < cs.len() ==> #[trigger] cs@[k].sem(v) == Ok::<bool, Fault>(false))
            ==> Condition::Or(cs).sem(v) == Ok::<bool, Fault>(false),
        forall|k: int|
            0 <= k < cs.len() && #[trigger] cs@[k].sem(v) != Ok::<bool, Fault>(false) && (forall|
                j: int,
            | 0 <= j < k ==> cs@[j].sem(v) == Ok::<bool, Fault>(false)) ==> Condition::Or(cs).sem(v)
                == cs@[k].sem(v),
{
    lemma_any_from(cs@, 0, v);
}

/// An `And` or an `Or` without children fails with `NoChildren` on every
/// value.
pub proof fn lemma_empty_compound_fails(cs: Vec<Condition>, v: Scalar)
    requires
        cs.len() == 0,
    ensures
        Condition::And(cs).sem(v) == Err::<bool, Fault>(Fault::NoChildren),
        Condition::Or(cs).sem(v) == Err::<bool, Fault>(Fault::NoChildren),
{
}

/// Equality is reflexive for every variant (for a float, every finite one),
/// and comparing values of different variants fails with `TypeMismatch`.
pub proof fn lemma_equality_reflexive_and_typed(a: Scalar, b: Scalar)
    requires
        a matches Scalar::Float(x) ==> crate::float::is_finite(x),
    ensures
        Condition::Equal(a).sem(a) == Ok::<bool, Fault>(true),
        a.rank() != b.rank() ==> Condition::Equal(a).sem(b) == Err::<bool, Fault>(
            Fault::TypeMismatch,
        ) && Condition::GreaterThan(a).sem(b) == Err::<bool, Fault>(Fault::TypeMismatch)
            && Condition::LessThan(a).sem(b) == Err::<bool, Fault>(Fault::TypeMismatch),
{
    vstd::arithmetic::power2::lemma_pow2_pos(1022);
}

} // verus!
