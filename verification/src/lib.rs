//! An interactive drill-down explorer over grouped aggregates of a mail store.
//!
//! The crate models a treemap-style navigation: a query describes a filtered,
//! grouped aggregation; rows coming back from the store become partitions; a
//! layout step assigns each partition a sub-rectangle proportional to its
//! count; an engine keeps the navigation stacks consistent while requests run
//! on a background worker reached through a channel-based link.

pub mod engine;
pub mod error;
pub mod layout;
pub mod link;
pub mod partitions;
pub mod query;
