//! The uniq-style tool: consecutive equal lines collapse into counted
//! groups, filtered and rendered under the configured flags.

pub mod args;
pub mod matcher;
