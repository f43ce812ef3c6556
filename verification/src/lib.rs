use vstd::prelude::*;

pub mod text;
pub mod paths;
pub mod ignorefile;
pub mod model;
pub mod pathorder;
pub mod workspace;
pub mod scanner;
pub mod deleter;
pub mod config;
pub mod sorting;
pub mod commands;
pub mod browser;
pub mod laws;

verus! {

} // verus!
