//! Classification and reclaim logic of a disk cleaner.

pub mod bars;
pub mod browse;
pub mod classify;
pub mod cli;
pub mod dedup;
pub mod double;
pub mod findings;
pub mod fingerprint;
pub mod fold;
pub mod glob;
pub mod groups;
pub mod guarantees;
pub mod job;
pub mod keys;
pub mod measure;
pub mod modal;
pub mod model;
pub mod nesting;
pub mod order;
pub mod overview;
pub mod path;
pub mod reclaim;
pub mod ruleset;
pub mod scan;
pub mod screen;
pub mod state;
pub mod text;
pub mod tree;
pub mod update;
pub mod walk;
