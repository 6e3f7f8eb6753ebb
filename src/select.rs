//! Selecting documents from JSON text by a query.
use crate::error::{Error, ErrorCode, Fault, Result};
use crate::json::{parse, parsed_doc};
use crate::matcher::RegexCache;
use crate::query::Query as Filter;
use vstd::prelude::*;
use vstd::string::*;

verus! {

/// A filter on lines of JSON text.
pub struct Query {
    q: Option<Filter>,
}

impl Query {
    /// The query that documents are held to, if any.
    pub closed spec fn filter(&self) -> Option<Filter> {
        self.q
    }

    /// What the filter says of `doc`: every document passes when there is no
    /// query.
    pub open spec fn verdict(&self, doc: serde_json::Value) -> core::result::Result<bool, Fault> {
        match self.filter() {
            None => Ok(true),
            Some(f) => f.query.sem(doc),
        }
    }

    /// The cached patterns after filtering `doc`.
    pub open spec fn cache_effect(&self, doc: serde_json::Value, cached: Seq<Seq<char>>) -> Seq<
        Seq<char>,
    > {
        match self.filter() {
            None => cached,
            Some(f) => f.query.cache_effect(doc, cached),
        }
    }

    /// A filter by `q`.
    pub fn new(q: Filter) -> (r: Query)
        ensures
            r.filter() == Some(q),
    {
        Query { q: Some(q) }
    }

    /// A filter that accepts every document.
    pub fn all() -> (r: Query)
        ensures
            r.filter() is None,
    {
        Query { q: None }
    }

    /// What to do with the result of parsing a line: hand the document back
    /// when the query accepts it, report `FilteredByQuery` when it rejects it,
    /// and the failure when parsing or evaluation fails.
    pub fn decide(
        &self,
        parsed: core::result::Result<serde_json::Value, String>,
        cache: &mut RegexCache,
    ) -> (r: Result<serde_json::Value>)
        requires
            old(cache).wf(),
        ensures
            final(cache).wf(),
            parsed matches Err(m) ==> (r matches Err(e) && e.code matches ErrorCode::Json(s)
                && s@ == m@) && final(cache)@ == old(cache)@,
            parsed matches Ok(d) ==> final(cache)@ == self.cache_effect(d, old(cache)@),
            parsed matches Ok(d) ==> match self.verdict(d) {
                Ok(true) => r matches Ok(x) && x == d,
                Ok(false) => r matches Err(e) && e.code.fault() == Fault::FilteredByQuery,
                Err(f) => r matches Err(e) && e.code.fault() == f,
            },
    {
        let v = match parsed {
            Ok(v) => v,
            Err(m) => return Err(Error::new(ErrorCode::Json(m))),
        };
        let b = match &self.q {
            None => Ok(true),
            Some(f) => f.eval(&v, cache),
        };
        match b {
            Ok(true) => Ok(v),
            Ok(false) => Err(Error::new(ErrorCode::FilteredByQuery)),
            Err(e) => Err(e),
        }
    }

    /// Parses a line of JSON text and filters the document.
    pub fn select(&self, v: &str, cache: &mut RegexCache) -> (r: Result<serde_json::Value>)
        requires
            old(cache).wf(),
        ensures
            final(cache).wf(),
            parsed_doc(v@) is None ==> (r matches Err(e) && e.code.fault() == Fault::Json)
                && final(cache)@ == old(cache)@,
            parsed_doc(v@) matches Some(d) ==> final(cache)@ == self.cache_effect(d, old(cache)@),
            parsed_doc(v@) matches Some(d) ==> match self.verdict(d) {
                Ok(true) => r matches Ok(x) && x == d,
                Ok(false) => r matches Err(e) && e.code.fault() == Fault::FilteredByQuery,
                Err(f) => r matches Err(e) && e.code.fault() == f,
            },
    {
        let parsed = parse(v);
        self.decide(parsed, cache)
    }
}

} // verus!
