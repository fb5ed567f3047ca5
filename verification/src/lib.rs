//! Output compression for the AWS command line: routing of subcommands,
//! argument rewriting, and the filters that turn verbose listings into short
//! summaries.

pub mod aws;
pub mod json;
pub mod route;
pub mod runner;
pub mod text;
