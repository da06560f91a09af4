//! Interactive session engine for a snapshot-testing tool: a small command
//! language (scanner + parser), a filterable view over a snapshot collection,
//! a reconciliation engine that compares fresh command output against stored
//! truth, and a line-oriented diff.

pub mod context;
pub mod diff;
pub mod engine;
pub mod parser;
pub mod scanner;
pub mod snapshot;
pub mod term;
pub mod text;
pub mod view;
