//! Finding `node_modules` directories in a walked tree, measuring them and
//! keeping the totals of a run, together with the rendering of byte counts.

pub mod cli;
pub mod entry;
pub mod reclaim;
pub mod units;
