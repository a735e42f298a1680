use vstd::prelude::*;

pub mod check;
pub mod collector;
pub mod config;
pub mod env;
pub mod error;
pub mod json;
pub mod manifest;
pub mod match_object;
pub mod namespace;
pub mod order;
pub mod scheduler;
pub mod script;
pub mod test_spec;
pub mod text;
pub mod wait;
