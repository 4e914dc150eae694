use vstd::prelude::*;

pub mod chars;
pub mod downloader;
pub mod grammar;
pub mod laws;
pub mod parser;
pub mod split;
pub mod store;
pub mod utils;

verus! {

} // verus!
