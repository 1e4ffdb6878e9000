//! A small task tracker: task records, the environment that picks a storage
//! location, and a verified in-memory model of the task table that the
//! command-line program keeps in step with its SQLite file.
pub mod cli;
pub mod db;
pub mod env;
mod fresh;
pub mod laws;
pub mod sql;
pub mod todo;

pub use cli::{Cli, Command};
pub use db::{Db, DbError};
pub use env::Env;
pub use sql::{SqlValue, Statement, CREATE_TABLE_SQL, INSERT_SQL, SELECT_ALL_SQL, UPDATE_STATUS_SQL};
pub use todo::{Todo, TodoView};
