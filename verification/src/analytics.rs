//! What is exchanged with the analytics service.
//!
//! The service gathers, without names, where players keep the game, and
//! hands back the places most often seen. It is an aid and nothing more:
//! when it cannot be reached, or answers with something else than a list of
//! places, the search goes on as if it knew none.

use crate::platform::Platform;
use vstd::prelude::*;
use vstd::string::*;

verus! {

/// The report of one installation: where it is, the user's name taken out,
/// and the store it came from.
#[derive(Clone, Debug, PartialEq, Eq)]
pub struct AnalyticsPayload {
    pub path: String,
    pub platform: Platform,
}

/// A place the service has seen, with the placeholder where the user's name
/// stood, and how often it was seen.
#[derive(Clone, Debug, PartialEq, Eq)]
pub struct PathStat {
    pub path: String,
    pub count: i64,
}

/// Why the list of popular places could not be had.
#[derive(Clone, Copy, Debug, PartialEq, Eq, Structural)]
pub enum FetchError {
    /// The request did not get through.
    Transport,
    /// The service answered with a status other than success.
    Status,
    /// The answer was not a list of places.
    Decode,
}

/// The paths of `stats`, in order.
pub open spec fn templates_of(stats: Seq<PathStat>) -> Seq<Seq<char>> {
    Seq::new(stats.len(), |i: int| stats[i].path@)
}

/// The places to try when the list was asked for with outcome `fetched`:
/// the list as the service ranked it, or nothing when there was none.
pub open spec fn popular_templates(fetched: Result<Vec<PathStat>, FetchError>) -> Seq<Seq<char>> {
    match fetched {
        Ok(stats) => templates_of(stats@),
        Err(_) => Seq::empty(),
    }
}

/// The list of popular places, or an empty list when it could not be had.
/// The order is the service's own.
pub fn popular_or_empty(fetched: Result<Vec<PathStat>, FetchError>) -> (stats: Vec<PathStat>)
    ensures
        templates_of(stats@) == popular_templates(fetched),
        fetched is Ok ==> stats == fetched->Ok_0,
        fetched is Err ==> stats@.len() == 0,
{
    match fetched {
        Ok(stats) => stats,
        Err(_) => {
            let stats: Vec<PathStat> = Vec::new();
            assert(templates_of(stats@) =~= Seq::<Seq<char>>::empty());
            stats
        },
    }
}

/// The address to which an installation is reported.
pub fn report_endpoint(base_url: &str) -> (url: String)
    ensures
        url@ == base_url@ + "/api/analytics/path"@,
{
    base_url.to_owned().concat("/api/analytics/path")
}

/// The address from which the popular places are fetched.
pub fn popular_endpoint(base_url: &str) -> (url: String)
    ensures
        url@ == base_url@ + "/api/analytics/popular"@,
{
    base_url.to_owned().concat("/api/analytics/popular")
}

} // verus!
