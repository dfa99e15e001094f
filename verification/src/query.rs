//! Query-side types of the request adapter.

use vstd::prelude::*;

verus! {

/// Parameters of a recent-readings query.
#[derive(Debug)]
pub struct RecentDataQuery {
    /// Restrict the query to one device.
    pub sensor_id: Option<String>,
    /// How many records at most.
    pub limit: usize,
}

/// The limit used when a query names none.
pub fn default_limit() -> (r: usize)
    ensures
        r == 20,
{
    20
}

} // verus!
