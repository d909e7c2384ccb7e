//! Ranks package mirrors: a verified model of mirror records, the
//! sort/filter pipeline applied to them, download-rate bookkeeping and the
//! command-line planning that turns options into a pipeline.

pub mod cli;
pub mod criteria;
pub mod error;
pub mod event;
pub mod float;
pub mod flow;
pub mod keys;
pub mod measure;
pub mod mirror;
pub mod outside;
pub mod pipeline;
pub mod run;
pub mod sorting;
pub mod text;
pub mod time;
pub mod urls;

pub use error::MirusError;
