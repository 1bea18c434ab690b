//! How long or how deep to search.
use vstd::prelude::*;

verus! {

#[derive(Clone, Copy, Debug)]
pub struct SearchOptions {
    /// Movetime in milliseconds
    pub movetime: Option<u32>,
    /// Depth to search to
    pub depth: Option<u16>,
}

impl Default for SearchOptions {
    /// A second per move, no depth limit.
    fn default() -> (r: Self)
        ensures
            r.movetime == Some(1000u32),
            r.depth.is_none(),
    {
        Self { movetime: Some(1000), depth: None }
    }
}

} // verus!
