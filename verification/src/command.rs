//! What one run of the program is asked to do, decided from its
//! arguments, and how a run ends.

use crate::text::{same_text, texts};
use vstd::prelude::*;

verus! {

/// Name of the directory, under the user's local data directory, that
/// holds the store.
pub const APPLICATION_DIRECTORY: &'static str = "traza";

/// Name of the file that holds the store.
pub const DATABASE_FILE: &'static str = "logs.db";

/// The arguments of a run, as they were given.
#[derive(Clone, Debug, PartialEq, Eq)]
pub struct Arguments {
    /// Name of the project to file the log under.
    pub project: Option<String>,
    /// Action on the whole store; `delete` removes every record.
    pub db: Option<String>,
    /// Whether the records are to be listed.
    pub list: bool,
    /// Fingerprint prefix of the record to export.
    pub export: Option<String>,
    /// Tags for the log.
    pub tag: Vec<String>,
}

/// The one thing a run does.
#[derive(Clone, Debug, PartialEq, Eq)]
pub enum Command {
    /// Show the records in the browser.
    Browse,
    /// Remove every record.
    DeleteAll,
    /// List the records.
    List,
    /// Export the record that the prefix resolves to.
    Export { prefix: String },
    /// Store the captured input as a new record.
    Insert { project: String, tags: Vec<String> },
}

/// Why no command could be chosen.
#[derive(Clone, Copy, Debug, PartialEq, Eq, Structural)]
pub enum CommandError {
    /// An insert was asked for without a project name.
    MissingProject,
}

/// The view of an optional text.
pub open spec fn text_of(item: Option<String>) -> Option<Seq<char>> {
    match item {
        Some(text) => Some(text@),
        None => None,
    }
}

/// `Arguments` as plain mathematical values.
pub struct ArgumentsView {
    pub project: Option<Seq<char>>,
    pub db: Option<Seq<char>>,
    pub list: bool,
    pub export: Option<Seq<char>>,
    pub tag: Seq<Seq<char>>,
}

impl View for Arguments {
    type V = ArgumentsView;

    open spec fn view(&self) -> ArgumentsView {
        ArgumentsView {
            project: text_of(self.project),
            db: text_of(self.db),
            list: self.list,
            export: text_of(self.export),
            tag: texts(self.tag@),
        }
    }
}

/// `Command` as plain mathematical values.
pub enum CommandView {
    Browse,
    DeleteAll,
    List,
    Export { prefix: Seq<char> },
    Insert { project: Seq<char>, tags: Seq<Seq<char>> },
}

impl View for Command {
    type V = CommandView;

    open spec fn view(&self) -> CommandView {
        match self {
            Command::Browse => CommandView::Browse,
            Command::DeleteAll => CommandView::DeleteAll,
            Command::List => CommandView::List,
            Command::Export { prefix } => CommandView::Export { prefix: prefix@ },
            Command::Insert { project, tags } => CommandView::Insert {
                project: project@,
                tags: texts(tags@),
            },
        }
    }
}

/// The command that the arguments select. A run without any argument
/// browses. Otherwise the first of these that applies wins: `db` given as
/// `delete`; `list`; `export`; and last the insert, which needs a project
/// name that is not empty.
pub open spec fn selected(argument_count: nat, arguments: ArgumentsView) -> Result<
    CommandView,
    CommandError,
> {
    if argument_count == 0 {
        Ok(CommandView::Browse)
    } else if arguments.db == Some("delete"@) {
        Ok(CommandView::DeleteAll)
    } else if arguments.list {
        Ok(CommandView::List)
    } else if arguments.export is Some {
        Ok(CommandView::Export { prefix: arguments.export->0 })
    } else if arguments.project is Some && arguments.project->0.len() > 0 {
        Ok(CommandView::Insert { project: arguments.project->0, tags: arguments.tag })
    } else {
        Err(CommandError::MissingProject)
    }
}

/// The view of a selection.
pub open spec fn selection_view(r: Result<Command, CommandError>) -> Result<
    CommandView,
    CommandError,
> {
    match r {
        Ok(command) => Ok(command@),
        Err(error) => Err(error),
    }
}

/// Chooses the command for a run that was given `argument_count`
/// arguments, parsed into `arguments`.
pub fn select_command(argument_count: usize, arguments: Arguments) -> (r: Result<
    Command,
    CommandError,
>)
    ensures
        selection_view(r) == selected(argument_count as nat, arguments@),
{
    if argument_count == 0 {
        return Ok(Command::Browse);
    }
    let Arguments { project, db, list, export, tag } = arguments;
    let delete = match &db {
        Some(action) => same_text(action.as_str(), "delete"),
        None => false,
    };
    if delete {
        return Ok(Command::DeleteAll);
    }
    if list {
        return Ok(Command::List);
    }
    if let Some(prefix) = export {
        return Ok(Command::Export { prefix });
    }
    match project {
        Some(name) => {
            if name.as_str().is_empty() {
                Err(CommandError::MissingProject)
            } else {
                Ok(Command::Insert { project: name, tags: tag })
            }
        },
        None => Err(CommandError::MissingProject),
    }
}

/// How a run can fail.
#[derive(Clone, Copy, Debug, PartialEq, Eq, Structural)]
pub enum Failure {
    /// A required argument was not given.
    MissingArgument,
    /// The store could not be opened, read or written.
    Storage,
    /// No fingerprint starts with the prefix that was asked for.
    NotFound,
    /// A file could not be written.
    Io,
}

/// The exit code of a run: 0 when it succeeded, and also when it only
/// found no record, which is reported and is no fault; 1 otherwise.
pub open spec fn exit_code_of(outcome: Option<Failure>) -> int {
    match outcome {
        None => 0,
        Some(Failure::NotFound) => 0,
        Some(_) => 1,
    }
}

/// The exit code for the way a run ended.
pub fn exit_code(outcome: Option<Failure>) -> (code: i32)
    ensures
        code == exit_code_of(outcome),
{
    match outcome {
        None => 0,
        Some(Failure::NotFound) => 0,
        Some(_) => 1,
    }
}

} // verus!
