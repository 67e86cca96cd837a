//! A small store of ideas filed under nested topics, with sibling-local ids.
pub mod model;
pub mod ids;
pub mod error;
pub mod tree;
pub mod counts;
pub mod text;
pub mod chain;
pub mod defrag;
pub mod report;
pub mod legacy;
pub mod command;
pub mod flow;
pub mod laws;
