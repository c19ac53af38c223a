use vstd::prelude::*;

pub mod text;
pub mod glob;
pub mod manifest;
pub mod paths;
pub mod error;
pub mod compiler;
pub mod compiler_laws;
pub mod json;
pub mod json_laws;
pub mod engine;
pub mod compdb;
pub mod doctor;
pub mod hash;
pub mod resolver;
pub mod workflow;
pub mod package_build;
pub mod trace;
pub mod cli;

verus! {

} // verus!
