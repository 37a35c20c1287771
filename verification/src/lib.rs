//! Vote aggregation for a small election site: per-candidate tallies with a
//! deterministic order, per-party totals, and ranking of the free-text
//! keywords that voters submit with their ballots.

pub mod keywords;
pub mod laws;
pub mod model;
pub mod store;
pub mod tally;
