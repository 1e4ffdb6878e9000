use crate::fresh::{new_id, now_millis};
use vstd::prelude::*;

verus! {

/// One task record, laid out as a row of the task table: `is_completed` is
/// 0 or 1 and the timestamps are epoch milliseconds.
#[derive(Clone, Debug)]
pub struct Todo {
    pub id: String,
    pub title: String,
    pub is_completed: u8,
    pub created_at: i64,
    pub updated_at: i64,
}

/// The mathematical value of a task.
pub struct TodoView {
    pub id: Seq<char>,
    pub title: Seq<char>,
    pub is_completed: u8,
    pub created_at: i64,
    pub updated_at: i64,
}

impl View for Todo {
    type V = TodoView;

    open spec fn view(&self) -> TodoView {
        TodoView {
            id: self.id@,
            title: self.title@,
            is_completed: self.is_completed,
            created_at: self.created_at,
            updated_at: self.updated_at,
        }
    }
}

impl Todo {
    /// Builds a task from its fields; the completion flag is stored as 0 or 1.
    pub fn new(id: String, title: String, is_completed: bool, created_at: i64, updated_at: i64) -> (r: Todo)
        ensures
            r.id == id,
            r.title == title,
            r.is_completed == (if is_completed { 1u8 } else { 0u8 }),
            r.created_at == created_at,
            r.updated_at == updated_at,
    {
        Todo { id, title, is_completed: if is_completed { 1 } else { 0 }, created_at, updated_at }
    }

    /// The task's identifier.
    pub fn get_id(&self) -> (r: &String)
        ensures
            *r == self.id,
    {
        &self.id
    }

    /// An independent copy of the task.
    pub fn duplicate(&self) -> (r: Todo)
        ensures
            r@ == self@,
    {
        Todo {
            id: self.id.clone(),
            title: self.title.clone(),
            is_completed: self.is_completed,
            created_at: self.created_at,
            updated_at: self.updated_at,
        }
    }

    /// A new incomplete task with a fresh random id, created and last
    /// modified now.
    pub fn create(title: String) -> (r: Todo)
        ensures
            r.title == title,
            r.id@.len() == 36,
            r.is_completed == 0,
            r.created_at >= 0,
            r.updated_at == r.created_at,
    {
        let now = now_millis();
        Todo::new(new_id(), title, false, now, now)
    }

    /// The word that shows whether the task is complete.
    pub fn status_label(&self) -> (r: &'static str)
        ensures
            r@ == (if self.is_completed == 1 { "completed"@ } else { "incomplete"@ }),
    {
        if self.is_completed == 1 {
            "completed"
        } else {
            "incomplete"
        }
    }
}

} // verus!
