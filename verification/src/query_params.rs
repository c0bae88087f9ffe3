//! The usage parameters that a query string can carry.  Each one is written
//! as a single character in the URL to keep log lines short.

use vstd::prelude::*;

verus! {

/// The optional per-line usage signals.
pub enum QueryStringParameters {
    /// Video id: present when a video play started.
    VideoId,
    /// Ad unit id: present when an ad impression fired.
    AdUnitId,
}

impl QueryStringParameters {
    /// The single-character key under which the parameter appears in a
    /// query string.
    pub fn resolve_query_string_parameter(x: &QueryStringParameters) -> (r: char)
        ensures
            r == match x {
                QueryStringParameters::VideoId => 'v',
                QueryStringParameters::AdUnitId => 'i',
            },
    {
        match x {
            QueryStringParameters::VideoId => 'v',
            QueryStringParameters::AdUnitId => 'i',
        }
    }
}

} // verus!
