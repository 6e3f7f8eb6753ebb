//! Substring and regular-expression tests on strings, with a cache of
//! compiled patterns.
use crate::error::{agrees, Error, ErrorCode, Fault, Result};
use crate::text::{contains, occurs_in};
use vstd::prelude::*;
use vstd::string::*;

verus! {

#[verifier::external_type_specification]
#[verifier::external_body]
pub struct ExRegex(regex::Regex);

/// Whether the regex crate accepts `pattern`.
pub uninterp spec fn regex_compiles(pattern: Seq<char>) -> bool;

/// Whether `text` holds a match of the regular expression `pattern`.
pub uninterp spec fn regex_matches(pattern: Seq<char>, text: Seq<char>) -> bool;

/// A compiled regular expression and the pattern it was compiled from. Only
/// `compile` builds one.
pub struct Compiled {
    pattern: String,
    re: regex::Regex,
}

/// Relies on `regex::Regex::new`, which fails exactly on a pattern that the
/// regex crate does not accept.
#[verifier::external_body]
fn compile(pattern: &str) -> (r: Option<Compiled>)
    ensures
        r.is_some() == regex_compiles(pattern@),
        r matches Some(c) ==> c.pattern@ == pattern@,
{
    match regex::Regex::new(pattern) {
        Ok(re) => Some(Compiled { pattern: pattern.to_string(), re }),
        Err(_) => None,
    }
}

/// Relies on `regex::Regex::is_match`: whether the text holds a match of the
/// expression that `c` was compiled from.
#[verifier::external_body]
fn is_match(c: &Compiled, text: &str) -> (r: bool)
    ensures
        r == regex_matches(c.pattern@, text@),
{
    c.re.is_match(text)
}

/// Compiled patterns, each compiled once and kept for the life of the cache.
/// A caller that shares one cache between threads puts it behind one lock.
pub struct RegexCache {
    entries: Vec<Compiled>,
}

impl View for RegexCache {
    /// The cached patterns, in the order in which they were first compiled.
    type V = Seq<Seq<char>>;

    closed spec fn view(&self) -> Seq<Seq<char>> {
        self.entries@.map_values(|c: Compiled| c.pattern@)
    }
}

/// The cached patterns after `pattern` has been tested against a cache that
/// held `cached`: a valid pattern that was missing is added.
pub open spec fn cache_after(cached: Seq<Seq<char>>, pattern: Seq<char>) -> Seq<Seq<char>> {
    if cached.contains(pattern) || !regex_compiles(pattern) {
        cached
    } else {
        cached.push(pattern)
    }
}

/// Once a pattern has been tested, testing it again leaves the cache as it
/// is: a pattern is compiled at most once.
pub proof fn lemma_compiled_once(cached: Seq<Seq<char>>, pattern: Seq<char>)
    ensures
        cache_after(cache_after(cached, pattern), pattern) == cache_after(cached, pattern),
        regex_compiles(pattern) ==> cache_after(cached, pattern).contains(pattern),
{
    if !cached.contains(pattern) && regex_compiles(pattern) {
        assert(cached.push(pattern)[cached.len() as int] == pattern);
    }
}

impl RegexCache {
    /// Every cached pattern is one that compiles.
    pub open spec fn wf(&self) -> bool {
        forall|i: int| 0 <= i < self@.len() ==> regex_compiles(#[trigger] self@[i])
    }

    pub fn new() -> (r: RegexCache)
        ensures
            r@ == Seq::<Seq<char>>::empty(),
            r.wf(),
    {
        let r = RegexCache { entries: Vec::new() };
        proof {
            assert(r@ =~= Seq::<Seq<char>>::empty());
        }
        r
    }

    /// The number of cached patterns.
    pub fn len(&self) -> (r: usize)
        ensures
            r == self@.len(),
    {
        self.entries.len()
    }

    fn find(&self, pattern: &str) -> (r: Option<usize>)
        ensures
            r matches Some(i) ==> i < self@.len() && self@[i as int] == pattern@,
            r is None ==> !self@.contains(pattern@),
    {
        let key = String::from_str(pattern);
        let mut i: usize = 0;
        while i < self.entries.len()
            invariant
                i <= self.entries@.len(),
                key@ == pattern@,
                forall|j: int| 0 <= j < i ==> self@[j] != pattern@,
            decreases self.entries@.len() - i,
        {
            if self.entries[i].pattern == key {
                return Some(i);
            }
            i = i + 1;
        }
        None
    }

    /// Whether `text` holds a match of `pattern`, compiling the pattern only
    /// where the cache does not hold it yet.
    pub fn is_match(&mut self, pattern: &str, text: &str) -> (r: Result<bool>)
        requires
            old(self).wf(),
        ensures
            final(self).wf(),
            agrees(r, regex_outcome(pattern@, text@)),
            r matches Err(e) ==> (e.code matches ErrorCode::InvalidRegex(s) && s@ == pattern@),
            final(self)@ == cache_after(old(self)@, pattern@),
    {
        match self.find(pattern) {
            Some(i) => {
                proof {
                    // a cached pattern was compiled from that very text
                    assert(self.entries@[i as int].pattern@ == pattern@);
                    assert(self@[i as int] == pattern@);
                    assert(self@.contains(pattern@));
                }
                Ok(is_match(&self.entries[i], text))
            },
            None => match compile(pattern) {
                Some(c) => {
                    let b = is_match(&c, text);
                    self.entries.push(c);
                    proof {
                        assert(self@ =~= old(self)@.push(pattern@));
                        assert(forall|i: int| 0 <= i < old(self)@.len() ==> self@[i] == old(self)@[i]);
                    }
                    Ok(b)
                },
                None => Err(Error::new(ErrorCode::InvalidRegex(String::from_str(pattern)))),
            },
        }
    }
}

/// What testing `value` against the regular expression `pattern` gives.
pub open spec fn regex_outcome(pattern: Seq<char>, value: Seq<char>) -> core::result::Result<
    bool,
    Fault,
> {
    if regex_compiles(pattern) {
        Ok(regex_matches(pattern, value))
    } else {
        Err(Fault::InvalidRegex)
    }
}

/// Selects strings by a pattern.
pub enum Matcher<'a> {
    /// Substring containment.
    Raw(&'a str),
    /// A regular expression.
    Regex(&'a str),
}

impl Matcher<'_> {
    /// What testing `value` gives.
    pub open spec fn outcome(&self, value: Seq<char>) -> core::result::Result<bool, Fault> {
        match self {
            Matcher::Raw(p) => Ok(occurs_in(p@, value)),
            Matcher::Regex(p) => regex_outcome(p@, value),
        }
    }

    /// Whether `value` matches the pattern.
    pub fn test(&self, cache: &mut RegexCache, value: &str) -> (r: Result<bool>)
        requires
            old(cache).wf(),
        ensures
            final(cache).wf(),
            agrees(r, self.outcome(value@)),
            self matches Matcher::Regex(p) ==> final(cache)@ == cache_after(old(cache)@, p@),
            self matches Matcher::Regex(p) ==> (r matches Err(e) ==> (e.code matches ErrorCode::InvalidRegex(
                s,
            ) && s@ == p@)),
            self matches Matcher::Raw(_) ==> final(cache)@ == old(cache)@,
    {
        match self {
            Matcher::Raw(_) => self.test_raw(value),
            Matcher::Regex(_) => self.test_regex(cache, value),
        }
    }

    /// Whether `value` contains the pattern of a `Raw` matcher.
    pub fn test_raw(&self, value: &str) -> (r: Result<bool>)
        ensures
            self matches Matcher::Raw(_) ==> agrees(r, self.outcome(value@)),
            self matches Matcher::Regex(_) ==> agrees(r, Err(Fault::Unreachable)),
    {
        match self {
            Matcher::Raw(p) => Ok(contains(value, p)),
            Matcher::Regex(_) => Err(Error::unreachable()),
        }
    }

    /// Whether `value` matches the expression of a `Regex` matcher.
    pub fn test_regex(&self, cache: &mut RegexCache, value: &str) -> (r: Result<bool>)
        requires
            old(cache).wf(),
        ensures
            final(cache).wf(),
            self matches Matcher::Regex(p) ==> agrees(r, self.outcome(value@)) && final(cache)@
                == cache_after(old(cache)@, p@),
            self matches Matcher::Regex(p) ==> (r matches Err(e) ==> (e.code matches ErrorCode::InvalidRegex(
                s,
            ) && s@ == p@)),
            self matches Matcher::Raw(_) ==> agrees(r, Err(Fault::Unreachable)) && final(cache)@
                == old(cache)@,
    {
        match self {
            Matcher::Regex(p) => cache.is_match(p, value),
            Matcher::Raw(_) => Err(Error::unreachable()),
        }
    }
}

} // verus!
