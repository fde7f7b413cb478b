//! Line counts per file extension, sampled over the history of a git
//! repository and rendered as a tab-separated table.

pub mod aggregate;
pub mod args;
pub mod benchmark;
pub mod clock;
pub mod columns;
pub mod error;
pub mod git;
pub mod output;
pub mod pipeline;
pub mod progressbar;
pub mod repoutils;
pub mod sampler;
pub mod text;
pub mod timestamp;
pub mod tsv_output;
pub mod utils;
