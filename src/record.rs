use vstd::prelude::*;

verus! {

/// One URL of the universe, with what is known of it from the browsing history.
#[derive(Debug)]
pub struct FetchTarget {
    pub url: String,
    /// The page title, if the history has one.
    pub title: Option<String>,
    /// When the page was last visited, in microseconds since the Unix epoch.
    pub last_visit_micros: Option<i64>,
}

/// How one fetch ended. Both variants are terminal: a recorded URL is never fetched again.
#[derive(Debug)]
pub enum FetchOutcome {
    /// A 2xx answer of type text/html, with its body.
    Success(String),
    /// Anything else, with a readable reason.
    Failure(String),
}

/// The recorded result of fetching one target.
#[derive(Debug)]
pub struct FetchResult {
    pub url: String,
    /// When the fetch ended, in nanoseconds since the Unix epoch.
    pub fetched_at_nanos: i64,
    pub outcome: FetchOutcome,
}

/// The URLs of a sequence of results, in order.
pub open spec fn result_urls(results: Seq<FetchResult>) -> Seq<Seq<char>> {
    results.map_values(|r: FetchResult| r.url@)
}

/// The URLs of a sequence of targets, in order.
pub open spec fn target_urls(targets: Seq<FetchTarget>) -> Seq<Seq<char>> {
    targets.map_values(|t: FetchTarget| t.url@)
}

/// All results of a sequence of bundles, bundle after bundle.
pub open spec fn all_results(bundles: Seq<Seq<FetchResult>>) -> Seq<FetchResult> {
    bundles.flatten()
}

/// The number of results in a sequence of bundles.
pub open spec fn result_count(bundles: Seq<Seq<FetchResult>>) -> nat {
    all_results(bundles).len()
}

impl FetchTarget {
    /// A copy of the target, field for field.
    pub fn duplicate(&self) -> (r: FetchTarget)
        ensures
            r == *self,
    {
        let title = match &self.title {
            Some(t) => Some(t.clone()),
            None => None,
        };
        FetchTarget { url: self.url.clone(), title, last_visit_micros: self.last_visit_micros }
    }
}

} // verus!
