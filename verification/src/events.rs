//! Options of the queries for events.
use vstd::prelude::*;

verus! {

/// Which events a query is about.
#[derive(Debug, Clone, PartialEq, Eq)]
pub struct CommonEventsOpt {
    /// The URL of the database.
    pub db: String,
    /// The artifact of the events, if only those of one artifact are asked
    /// for.
    pub artifact: Option<i32>,
    /// The execution of the events, if only those of one execution are
    /// asked for.
    pub execution: Option<i32>,
}

/// The options of the query that counts events.
#[derive(Debug, Clone, PartialEq, Eq)]
pub struct CountEventsOpt {
    pub common: CommonEventsOpt,
}

/// The options of the query that gets events.
#[derive(Debug, Clone, PartialEq, Eq)]
pub struct GetEventsOpt {
    pub common: CommonEventsOpt,
    /// How many events the result holds at most.
    pub limit: usize,
    /// How many events of the result are passed over.
    pub offset: usize,
    /// Whether the result is sorted in ascending order of time.
    pub asc: bool,
}

impl GetEventsOpt {
    /// How many events a result holds at most, unless the caller says
    /// otherwise.
    pub fn limit_default() -> (r: usize)
        ensures
            r == 100,
    {
        100
    }
}

} // verus!
