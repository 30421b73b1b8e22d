//! Verified core of a Linux injector and mod-loader manager for Unity/Mono games.
use vstd::prelude::*;

pub mod bytes;
pub mod cli;
pub mod diag;
pub mod elf;
pub mod injector;
pub mod json;
pub mod engine;
pub mod loader;
pub mod maps;
pub mod metadata;
pub mod num;
pub mod order;
pub mod path;
pub mod payload;
pub mod procfs;
pub mod scanner;
pub mod steam;
pub mod text;

verus! {

} // verus!
