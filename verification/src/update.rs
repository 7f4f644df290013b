//! The schedule of the crawl server: crawl, publish what the crawl found in
//! place of what was served, wait a day, and again.

use vstd::prelude::*;
use crate::models::NodeData;

verus! {

/// The seconds between the end of one update and the start of the next.
pub const UPDATE_INTERVAL_SECS: u64 = 86400;

/// What the server does next.
#[derive(Clone, Copy, Debug, PartialEq, Eq, Structural)]
pub enum UpdateStep {
    /// Crawl the network, locating the nodes found.
    Crawl,
    /// Serve what the crawl found.
    Publish,
    /// Wait before the next crawl.
    Wait { secs: u64 },
}

/// The step after `s`: a crawl is published, a publication is followed by a
/// day's wait, and a wait by a crawl.
pub fn next_update_step(s: UpdateStep) -> (r: UpdateStep)
    ensures
        r == (match s {
            UpdateStep::Crawl => UpdateStep::Publish,
            UpdateStep::Publish => UpdateStep::Wait { secs: 86400 },
            UpdateStep::Wait { .. } => UpdateStep::Crawl,
        }),
{
    match s {
        UpdateStep::Crawl => UpdateStep::Publish,
        UpdateStep::Publish => UpdateStep::Wait { secs: UPDATE_INTERVAL_SECS },
        UpdateStep::Wait { .. } => UpdateStep::Crawl,
    }
}

/// The nodes served after a publication: those of the new crawl, in place
/// of the ones served before.
pub fn published(_served: Vec<NodeData>, new: Vec<NodeData>) -> (r: Vec<NodeData>)
    ensures
        r@ == new@,
{
    new
}

} // verus!
