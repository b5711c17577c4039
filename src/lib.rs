//! An in-memory store of book records served over HTTP: the records and
//! their display, the repository with its lookup, upsert and sorted
//! listing, the HTML pages built from it, and the answer given for each way
//! a repository access can end.

pub mod book;
pub mod bridge;
pub mod handlers;
pub mod laws;
pub mod order;
pub mod render;
pub mod repository;
