//! Prefix bookkeeping and input-completeness detection for a SPARQL
//! command-line tool.

pub mod laws;
pub mod lemmas;
pub mod model;
pub mod prefix;
pub mod query;
pub mod repl;
pub mod scan;
pub mod store;
pub mod text;
