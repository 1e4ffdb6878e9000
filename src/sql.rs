use crate::todo::Todo;
use vstd::prelude::*;

verus! {

/// Creates the task table when it does not exist yet.
pub const CREATE_TABLE_SQL: &'static str = "CREATE TABLE IF NOT EXISTS todos (id TEXT PRIMARY KEY, title TEXT, is_completed INTEGER, created_at INTEGER, updated_at INTEGER);";

/// Reads every row of the task table, columns in the order of `Todo`'s fields.
pub const SELECT_ALL_SQL: &'static str = "SELECT id, title, is_completed, created_at, updated_at FROM todos ORDER BY created_at";

/// Writes one new row; its parameters come in the order of the columns.
pub const INSERT_SQL: &'static str = "INSERT INTO todos (id, title, is_completed, created_at, updated_at) VALUES ($1, $2, $3, $4, $5)";

/// Writes a task's completion flag and modification time; the last
/// parameter is the id of the row.
pub const UPDATE_STATUS_SQL: &'static str = "UPDATE todos SET is_completed = $1, updated_at = $2 WHERE id = $3";

/// A value bound to a statement parameter.
#[derive(Clone, Debug)]
pub enum SqlValue {
    Text(String),
    Integer(i64),
}

/// A parameterised statement with its values, in parameter order.
#[derive(Clone, Debug)]
pub struct Statement {
    pub sql: &'static str,
    pub params: Vec<SqlValue>,
}

impl Todo {
    /// The statement that stores the task as a new row: id, title,
    /// completion flag, creation time and modification time.
    pub fn sql_insert_query(&self) -> (r: Statement)
        ensures
            r.sql == INSERT_SQL,
            r.params@ == seq![
                SqlValue::Text(self.id),
                SqlValue::Text(self.title),
                SqlValue::Integer(self.is_completed as i64),
                SqlValue::Integer(self.created_at),
                SqlValue::Integer(self.updated_at),
            ],
    {
        let params = vec![
            SqlValue::Text(self.id.clone()),
            SqlValue::Text(self.title.clone()),
            SqlValue::Integer(self.is_completed as i64),
            SqlValue::Integer(self.created_at),
            SqlValue::Integer(self.updated_at),
        ];
        Statement { sql: INSERT_SQL, params }
    }

    /// The statement that writes the task's completion flag and
    /// modification time into its stored row.
    pub fn sql_update_query(&self) -> (r: Statement)
        ensures
            r.sql == UPDATE_STATUS_SQL,
            r.params@ == seq![
                SqlValue::Integer(self.is_completed as i64),
                SqlValue::Integer(self.updated_at),
                SqlValue::Text(self.id),
            ],
    {
        let params = vec![
            SqlValue::Integer(self.is_completed as i64),
            SqlValue::Integer(self.updated_at),
            SqlValue::Text(self.id.clone()),
        ];
        Statement { sql: UPDATE_STATUS_SQL, params }
    }
}

} // verus!
