//! What a client asks of the server.

use vstd::prelude::*;

verus! {

/// The request to start a session.
#[derive(Debug)]
pub struct PtyStartParams {
    /// The command to run.
    pub command: String,
    /// The arguments to pass to the command.
    pub args: Option<Vec<String>>,
    /// The working directory.
    pub cwd: Option<String>,
    /// The terminal's columns.
    pub cols: Option<u16>,
    /// The terminal's rows.
    pub rows: Option<u16>,
}

/// The request to write to a session.
#[derive(Debug)]
pub struct PtyWriteParams {
    pub session_id: String,
    /// The text to write, to which nothing is added.
    pub input: String,
}

/// The request to read the output of a session.
#[derive(Debug)]
pub struct PtyReadParams {
    pub session_id: String,
}

/// The request to close a session.
#[derive(Debug)]
pub struct PtyCloseParams {
    pub session_id: String,
}

} // verus!
