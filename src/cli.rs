use vstd::prelude::*;

verus! {

/// The command line as parsed: a title to add, an id to complete, and the
/// listing switches.
#[derive(Debug)]
pub struct Cli {
    pub todo: Option<String>,
    pub complete: Option<String>,
    pub list_todos: bool,
    pub top: Option<u32>,
    pub incomplete: bool,
}

/// The one store operation that a command line asks for.
#[derive(Debug)]
pub enum Command {
    /// Mark the task with this id complete.
    Complete(String),
    /// Record a new task with this title.
    Add(String),
    /// List up to this many of the most recent tasks.
    Recent(u32),
    /// List every task.
    ListAll,
    /// List the tasks not yet complete.
    ListIncomplete,
    /// Nothing usable was given.
    Invalid,
}

impl Cli {
    /// The operation chosen, by precedence: completing a task, adding one,
    /// the most recent tasks, all tasks, the incomplete tasks.
    pub open spec fn command_spec(self) -> Command {
        match self.complete {
            Some(id) => Command::Complete(id),
            None => match self.todo {
                Some(title) => Command::Add(title),
                None => match self.top {
                    Some(n) => Command::Recent(n),
                    None => if self.list_todos {
                        Command::ListAll
                    } else if self.incomplete {
                        Command::ListIncomplete
                    } else {
                        Command::Invalid
                    },
                },
            },
        }
    }

    /// The operation that this command line asks for.
    pub fn into_command(self) -> (r: Command)
        ensures
            r == self.command_spec(),
    {
        match self.complete {
            Some(id) => Command::Complete(id),
            None => match self.todo {
                Some(title) => Command::Add(title),
                None => match self.top {
                    Some(n) => Command::Recent(n),
                    None => if self.list_todos {
                        Command::ListAll
                    } else if self.incomplete {
                        Command::ListIncomplete
                    } else {
                        Command::Invalid
                    },
                },
            },
        }
    }
}

} // verus!
