//! Traffic buckets of experiments.
//!
//! An experiment group has a row of buckets. Each bucket is either vacant or
//! belongs to one variant of one experiment, and a request that hashes to a
//! bucket is served that variant. This crate holds the rules: how buckets move
//! when an experiment is ramped, who may be a member of a group, and which
//! variants a request is served.
pub mod allocation;
pub mod allocation_laws;
pub mod cache;
pub mod error;
pub mod experiment;
pub mod group_laws;
pub mod groups;
pub mod json;
pub mod lists;
pub mod member_laws;
pub mod members;
pub mod model;
pub mod placement_laws;
pub mod ramp;
pub mod refusal_laws;
pub mod resolution_laws;
pub mod serving_laws;
pub mod slots;
pub mod target_laws;
pub mod text;
