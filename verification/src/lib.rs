use vstd::prelude::*;

pub mod error;
pub mod text;
pub mod json;
pub mod collections;
pub mod digest;
pub mod model;
pub mod timestamp;
pub mod validate;
pub mod report;
pub mod temporal;
pub mod program;
pub mod engine;
pub mod certificate;
pub mod reasoning;
pub mod compare;
pub mod checker;
pub mod laws;
pub mod result_json;
pub mod clone;
pub mod action;
pub mod release;
pub mod policy;
pub mod input;
pub mod render;
pub mod policy_bundle;
pub mod sources;
pub mod determinism;
pub mod guarantees;

verus! {

} // verus!
