//! Where the state of tickets is kept, and under what label.
use crate::agents::ticket::{StatusModel, Ticket, TicketStatus};
use crate::failure;
use crate::failure::Failure;
use crate::utils::posix;
use crate::utils::posix::{absolute, path_join, path_parent};
use vstd::prelude::*;

verus! {

pub const CREATE_TICKETS_TABLE_SQL: &'static str = r#"
    CREATE TABLE IF NOT EXISTS tickets (
        id TEXT PRIMARY KEY NOT NULL,
        status TEXT NOT NULL,
        retries INTEGER NOT NULL,
        payload TEXT NOT NULL
    )
"#;

pub open spec fn status_label(status: StatusModel) -> Seq<char> {
    match status {
        StatusModel::Todo => "todo"@,
        StatusModel::InProgress => "in_progress"@,
        StatusModel::Verified => "verified"@,
        StatusModel::Failed(_) => "failed"@,
    }
}

pub fn ticket_status_label(status: &TicketStatus) -> (res: &'static str)
    ensures
        res@ == status_label(status@),
{
    match status {
        TicketStatus::Todo => "todo",
        TicketStatus::InProgress => "in_progress",
        TicketStatus::Verified => "verified",
        TicketStatus::Failed(_) => "failed",
    }
}

/// The path of the database. `current_dir` is the working directory, or why it is not known; a
/// path that is absolute does without it.
pub fn resolve_state_path(path: &str, current_dir: Result<String, String>) -> (res: Result<
    String,
    Failure,
>)
    ensures
        if posix::is_absolute(path@) {
            res matches Ok(full) && full@ == path@
        } else {
            match current_dir {
                Ok(directory) => res matches Ok(full) && full@ == posix::joined(
                    directory@,
                    path@,
                ),
                Err(cause) => res matches Err(error) && error@ == failure::in_context(
                    "failed to resolve current working directory for state database"@,
                    failure::plain(cause@),
                ),
            }
        },
{
    if absolute(path) {
        return Ok(path.to_owned());
    }
    match current_dir {
        Ok(directory) => Ok(path_join(directory.as_str(), path)),
        Err(cause) => Err(
            Failure::new(cause).context(
                "failed to resolve current working directory for state database".to_owned(),
            ),
        ),
    }
}

/// The directory that holds the database.
pub fn state_directory(path: &str) -> (res: Result<String, Failure>)
    ensures
        match posix::parent(path@) {
            Some(parent) => if parent.len() > 0 {
                res matches Ok(directory) && directory@ == parent
            } else {
                res matches Err(error) && error@ == failure::plain(
                    "state database path must have a parent directory: "@ + path@,
                )
            },
            None => res matches Err(error) && error@ == failure::plain(
                "state database path must have a parent directory: "@ + path@,
            ),
        },
{
    match path_parent(path) {
        Some(parent) => if !parent.as_str().is_empty() {
            return Ok(parent);
        },
        None => {},
    }
    let mut message = "state database path must have a parent directory: ".to_owned();
    message.append(path);
    Err(Failure::new(message))
}

/// What a database without tickets stands for: no state at all.
pub fn loaded_state(tickets: Vec<Ticket>) -> (res: Option<Vec<Ticket>>)
    ensures
        match res {
            Some(loaded) => tickets@.len() > 0 && loaded@ == tickets@,
            None => tickets@.len() == 0,
        },
{
    if tickets.len() == 0 {
        None
    } else {
        Some(tickets)
    }
}

/// Tickets have the same label exactly where they stand at the same point.
pub proof fn lemma_labels_differ(a: StatusModel, b: StatusModel)
    ensures
        status_label(a) == status_label(b) <==> {
            ||| a is Todo && b is Todo
            ||| a is InProgress && b is InProgress
            ||| a is Verified && b is Verified
            ||| a is Failed && b is Failed
        },
{
    reveal_strlit("todo");
    reveal_strlit("in_progress");
    reveal_strlit("verified");
    reveal_strlit("failed");
    assert("todo"@.len() == 4);
    assert("in_progress"@.len() == 11);
    assert("verified"@.len() == 8);
    assert("failed"@.len() == 6);
}

} // verus!
