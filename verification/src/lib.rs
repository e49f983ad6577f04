use vstd::prelude::*;

pub mod engine;
pub mod text;
pub mod llm_json;
pub mod quiz;
pub mod llm;
pub mod settings;
pub mod pdf;
pub mod dashboard;
pub mod data;
pub mod prompt;
pub mod records;
pub mod export;

verus! {

} // verus!
