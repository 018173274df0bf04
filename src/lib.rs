use vstd::prelude::*;

pub mod chunk_runner;
pub mod graph_annotate;
pub mod graph_data;
pub mod graph_embedding;
pub mod graph_structs;
pub mod json;
pub mod text;
pub mod utils;

verus! {

} // verus!
