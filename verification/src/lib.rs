use vstd::prelude::*;

pub mod aging;
pub mod autonomous;
pub mod blob;
pub mod capture;
pub mod chars;
pub mod clustering;
pub mod context;
pub mod duplicates;
pub mod entries;
pub mod execution;
pub mod export;
pub mod failures;
pub mod goal_run;
pub mod graph;
pub mod ids;
pub mod intent;
pub mod json;
pub mod json_text;
pub mod learning;
pub mod lineage;
pub mod memory;
pub mod models;
pub mod order;
pub mod plan;
pub mod replies;
pub mod retention;
pub mod rows;
pub mod scheduler;
pub mod session;
pub mod streaming;
pub mod template;
pub mod text;
pub mod tool_loop;
pub mod tools;
pub mod trends;
pub mod vector;

verus! {

} // verus!
