//! What a store needs of a SQLite database: the statements, what goes into them,
//! and what comes out of them. Running them is left to the caller.

pub mod build_laws;
pub mod event_rows;
pub mod failure;
pub mod filter_laws;
pub mod maintenance;
pub mod meaning;
pub mod migration;
pub mod page_laws;
pub mod path_laws;
pub mod query;
pub mod query_laws;
pub mod read_model;
pub mod statement_laws;
