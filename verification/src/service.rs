//! The tools that the server offers, between one wait for the outside world and the next.
//!
//! A tool that has to wait is given as the steps between its waits. What a session holds besides
//! its place in the table is left open: it is the type parameter of [`PtyMcp`].

use vstd::prelude::*;
use vstd::utf8::*;

use crate::ansi;
use crate::buffer::{drain_buffer, OutputBuffer};
use crate::params::{PtyCloseParams, PtyReadParams, PtyWriteParams};
use crate::sessions::SessionMap;
use crate::text;

verus! {

/// How long a command is given to produce output, in milliseconds, before the output is read.
pub const SETTLE_MILLIS: u64 = 500;

/// How a request for a session that is not open is answered.
pub open spec fn not_found_text(id: Seq<char>) -> Seq<char> {
    "Error: session '"@ + id + "' not found"@
}

/// How a session that cannot be started is reported.
pub open spec fn start_error_text(reason: Seq<char>) -> Seq<char> {
    "Error: "@ + reason
}

/// How a started session is reported, together with its first output.
pub open spec fn started_text(id: Seq<char>, output: Seq<char>) -> Seq<char> {
    if output.len() == 0 {
        "Session started: "@ + id
    } else {
        "Session started: "@ + id + "\n\n"@ + output
    }
}

/// How a failed write is reported.
pub open spec fn write_error_text(cause: Seq<char>) -> Seq<char> {
    "Error: write failed: "@ + cause
}

/// What a write is answered, given the output that followed it.
pub open spec fn written_text(output: Seq<char>) -> Seq<char> {
    if output.len() == 0 {
        "Written (no output yet — use pty_read to check later)"@
    } else {
        output
    }
}

/// What a read is answered, given the output that was waiting.
pub open spec fn read_text(output: Seq<char>) -> Seq<char> {
    if output.len() == 0 {
        "(no new output)"@
    } else {
        output
    }
}

/// How a closed session is reported.
pub open spec fn closed_text(id: Seq<char>) -> Seq<char> {
    "Session '"@ + id + "' closed"@
}

/// What a request to close `id` is answered while `open` are the open sessions.
pub open spec fn close_text<S>(open: Map<Seq<char>, S>, id: Seq<char>) -> Seq<char> {
    match refusal(open, id) {
        Some(reply) => reply,
        None => closed_text(id),
    }
}

/// How a request for `id` is refused while `open` are the open sessions, if it is.
pub open spec fn refusal<S>(open: Map<Seq<char>, S>, id: Seq<char>) -> Option<Seq<char>> {
    if open.contains_key(id) {
        None
    } else {
        Some(not_found_text(id))
    }
}

/// The open sessions after one was started.
pub open spec fn after_start<S>(open: Map<Seq<char>, S>, id: Seq<char>, session: S) -> Map<
    Seq<char>,
    S,
> {
    open.insert(id, session)
}

/// The open sessions after a write has changed one.
pub open spec fn after_write<S>(open: Map<Seq<char>, S>, id: Seq<char>, changed: S) -> Map<
    Seq<char>,
    S,
> {
    open.insert(id, changed)
}

/// The open sessions after a request to close one.
pub open spec fn after_close<S>(open: Map<Seq<char>, S>, id: Seq<char>) -> Map<Seq<char>, S> {
    open.remove(id)
}

/// How a start goes on.
#[derive(Debug)]
pub enum StartNext {
    /// Wait so long, then answer with [`pty_start_reply`] for this session.
    Settle { session_id: String, millis: u64 },
    /// Answer so.
    Reply(String),
}

/// How a write goes on.
#[derive(Debug)]
pub enum WriteNext {
    /// Flush the session's input, wait so long, then answer with [`pty_write_reply`].
    Settle { millis: u64 },
    /// Answer so.
    Reply(String),
}

fn not_found(id: &String) -> (reply: String)
    ensures
        reply@ == not_found_text(id@),
{
    let head = text::join("Error: session '", id.as_str());
    text::join(head.as_str(), "' not found")
}

/// The server's state: the sessions that are open.
pub struct PtyMcp<S> {
    sessions: SessionMap<S>,
}

impl<S> View for PtyMcp<S> {
    type V = Map<Seq<char>, S>;

    closed spec fn view(&self) -> Map<Seq<char>, S> {
        self.sessions@
    }
}

impl<S> PtyMcp<S> {
    /// Whether the table of sessions is in order.
    pub closed spec fn wf(&self) -> bool {
        self.sessions.wf()
    }

    /// A server without sessions.
    pub fn new() -> (server: Self)
        ensures
            server.wf(),
            server@ == Map::<Seq<char>, S>::empty(),
    {
        PtyMcp { sessions: SessionMap::new() }
    }

    /// Whether a session is open under `id`.
    pub fn is_open(&self, id: &String) -> (open: bool)
        requires
            self.wf(),
        ensures
            open == self@.contains_key(id@),
    {
        self.sessions.get(id).is_some()
    }

    /// Goes on with a start once the session runs under its identifier, or could not be brought up
    /// for the reason given.
    pub fn pty_start(&mut self, spawned: Result<(String, S), String>) -> (next: StartNext)
        requires
            old(self).wf(),
        ensures
            final(self).wf(),
            match spawned {
                Ok((id, session)) => {
                    &&& final(self)@ == after_start(old(self)@, id@, session)
                    &&& next matches StartNext::Settle { session_id, millis }
                    &&& session_id@ == id@
                    &&& millis == SETTLE_MILLIS
                    &&& millis == 500
                    &&& final(self)@ == old(self)@.insert(id@, session)
                },
                Err(reason) => {
                    &&& final(self)@ == old(self)@
                    &&& next matches StartNext::Reply(reply)
                    &&& reply@ == start_error_text(reason@)
                    &&& reply@ == "Error: "@ + reason@
                },
            },
    {
        match spawned {
            Ok((id, session)) => {
                let session_id = id.clone();
                self.sessions.insert(id, session);
                StartNext::Settle { session_id, millis: SETTLE_MILLIS }
            },
            Err(reason) => StartNext::Reply(text::join("Error: ", reason.as_str())),
        }
    }

    /// Finds the session to write to, and the bytes to write to it.
    ///
    /// The bytes are the UTF-8 encoding of the input, to which nothing is added.
    pub fn pty_write<'a>(&'a mut self, params: &'a PtyWriteParams) -> (found: Result<
        (&'a mut S, &'a [u8]),
        String,
    >)
        requires
            old(self).wf(),
        ensures
            final(self).wf(),
            match found {
                Ok((session, bytes)) => {
                    &&& refusal(old(self)@, params.session_id@) is None
                    &&& old(self)@.contains_key(params.session_id@)
                    &&& *session == old(self)@[params.session_id@]
                    &&& final(self)@ == old(self)@.insert(params.session_id@, *final(session))
                    &&& bytes@ == encode_utf8(params.input@)
                    &&& final(self)@ == after_write(
                        old(self)@,
                        params.session_id@,
                        *final(session),
                    )
                },
                Err(reply) => {
                    &&& refusal(old(self)@, params.session_id@) == Some(reply@)
                    &&& !old(self)@.contains_key(params.session_id@)
                    &&& reply@ == "Error: session '"@ + params.session_id@ + "' not found"@
                    &&& final(self)@ == old(self)@
                },
            },
    {
        match self.sessions.get_mut(&params.session_id) {
            Some(session) => Ok((session, params.input.as_str().as_bytes())),
            None => Err(not_found(&params.session_id)),
        }
    }

    /// Finds the session to read from.
    pub fn pty_read(&self, params: &PtyReadParams) -> (found: Result<&S, String>)
        requires
            self.wf(),
        ensures
            match found {
                Ok(session) => {
                    &&& refusal(self@, params.session_id@) is None
                    &&& self@.contains_key(params.session_id@)
                    &&& *session == self@[params.session_id@]
                },
                Err(reply) => {
                    &&& refusal(self@, params.session_id@) == Some(reply@)
                    &&& !self@.contains_key(params.session_id@)
                    &&& reply@ == "Error: session '"@ + params.session_id@ + "' not found"@
                },
            },
    {
        match self.sessions.get(&params.session_id) {
            Some(session) => Ok(session),
            None => Err(not_found(&params.session_id)),
        }
    }

    /// Takes a session out of the table. Its command is then to be killed, and the request answered
    /// so.
    pub fn pty_close(&mut self, params: &PtyCloseParams) -> (closed: Result<(S, String), String>)
        requires
            old(self).wf(),
        ensures
            final(self).wf(),
            final(self)@ == after_close(old(self)@, params.session_id@),
            final(self)@ == old(self)@.remove(params.session_id@),
            match closed {
                Ok((session, reply)) => {
                    &&& refusal(old(self)@, params.session_id@) is None
                    &&& old(self)@.contains_key(params.session_id@)
                    &&& session == old(self)@[params.session_id@]
                    &&& reply@ == "Session '"@ + params.session_id@ + "' closed"@
                    &&& reply@ == close_text(old(self)@, params.session_id@)
                },
                Err(reply) => {
                    &&& refusal(old(self)@, params.session_id@) == Some(reply@)
                    &&& !old(self)@.contains_key(params.session_id@)
                    &&& reply@ == "Error: session '"@ + params.session_id@ + "' not found"@
                    &&& reply@ == close_text(old(self)@, params.session_id@)
                },
            },
    {
        match self.sessions.remove(&params.session_id) {
            Some(session) => {
                let head = text::join("Session '", params.session_id.as_str());
                Ok((session, text::join(head.as_str(), "' closed")))
            },
            None => Err(not_found(&params.session_id)),
        }
    }
}

/// Answers a start after the wait: takes the first output and reports the session.
pub fn pty_start_reply(session_id: &String, output: &mut OutputBuffer) -> (reply: String)
    ensures
        old(output).drains_to(*final(output)),
        reply@ == started_text(session_id@, old(output).shows()),
        final(output).bytes@ == Seq::<u8>::empty(),
        final(output).scan == ansi::scan_after(
            old(output).scan,
            text::utf8_lossy(old(output).bytes@),
        ),
        ({
            let shown = ansi::visible_from(old(output).scan, text::utf8_lossy(old(output).bytes@));
            &&& shown.len() == 0 ==> reply@ == "Session started: "@ + session_id@
            &&& shown.len() > 0 ==> reply@ == "Session started: "@ + session_id@ + "\n\n"@ + shown
        }),
        valid_utf8(old(output).bytes@) ==> reply@ == started_text(
            session_id@,
            old(output).shows_decoded(),
        ),
        old(output).bytes@.len() == 0 ==> reply@ == "Session started: "@ + session_id@,
{
    let initial = drain_buffer(output);
    started_reply(session_id, &initial)
}

/// Reports a started session and the first output that a client sees of it.
pub fn started_reply(session_id: &String, initial: &String) -> (reply: String)
    ensures
        reply@ == started_text(session_id@, initial@),
        initial@.len() == 0 ==> reply@ == "Session started: "@ + session_id@,
        initial@.len() > 0 ==> reply@ == "Session started: "@ + session_id@ + "\n\n"@ + initial@,
{
    let head = text::join("Session started: ", session_id.as_str());
    if initial.as_str().is_empty() {
        head
    } else {
        let gap = text::join(head.as_str(), "\n\n");
        text::join(gap.as_str(), initial.as_str())
    }
}

/// Goes on with a write once the bytes are written, or could not be for the cause given.
pub fn pty_write_outcome(outcome: Result<(), String>) -> (next: WriteNext)
    ensures
        match outcome {
            Ok(_) => next == (WriteNext::Settle { millis: SETTLE_MILLIS }),
            Err(cause) => next matches WriteNext::Reply(reply) && reply@ == write_error_text(
                cause@,
            ),
        },
        match outcome {
            Ok(_) => next == (WriteNext::Settle { millis: 500 }),
            Err(cause) => {
                &&& next matches WriteNext::Reply(reply)
                &&& reply@ == "Error: write failed: "@ + cause@
            },
        },
{
    match outcome {
        Ok(_) => WriteNext::Settle { millis: SETTLE_MILLIS },
        Err(cause) => WriteNext::Reply(text::join("Error: write failed: ", cause.as_str())),
    }
}

/// Answers a write after the wait: takes the output that is waiting.
pub fn pty_write_reply(output: &mut OutputBuffer) -> (reply: String)
    ensures
        old(output).drains_to(*final(output)),
        reply@ == written_text(old(output).shows()),
        final(output).bytes@ == Seq::<u8>::empty(),
        final(output).scan == ansi::scan_after(
            old(output).scan,
            text::utf8_lossy(old(output).bytes@),
        ),
        ({
            let shown = ansi::visible_from(old(output).scan, text::utf8_lossy(old(output).bytes@));
            &&& shown.len() == 0 ==> reply@ == "Written (no output yet — use pty_read to check later)"@
            &&& shown.len() > 0 ==> reply@ == shown
        }),
        valid_utf8(old(output).bytes@) ==> reply@ == written_text(old(output).shows_decoded()),
        old(output).bytes@.len() == 0 ==> reply@
            == "Written (no output yet — use pty_read to check later)"@,
{
    written_reply(drain_buffer(output))
}

/// Answers a write with the output that a client sees of what followed it.
pub fn written_reply(output: String) -> (reply: String)
    ensures
        reply@ == written_text(output@),
        output@.len() == 0 ==> reply@ == "Written (no output yet — use pty_read to check later)"@,
        output@.len() > 0 ==> reply@ == output@,
{
    if output.as_str().is_empty() {
        "Written (no output yet — use pty_read to check later)".to_string()
    } else {
        output
    }
}

/// Answers a read: takes the output that is waiting.
pub fn pty_read_reply(output: &mut OutputBuffer) -> (reply: String)
    ensures
        old(output).drains_to(*final(output)),
        reply@ == read_text(old(output).shows()),
        final(output).bytes@ == Seq::<u8>::empty(),
        final(output).scan == ansi::scan_after(
            old(output).scan,
            text::utf8_lossy(old(output).bytes@),
        ),
        ({
            let shown = ansi::visible_from(old(output).scan, text::utf8_lossy(old(output).bytes@));
            &&& shown.len() == 0 ==> reply@ == "(no new output)"@
            &&& shown.len() > 0 ==> reply@ == shown
        }),
        valid_utf8(old(output).bytes@) ==> reply@ == read_text(old(output).shows_decoded()),
        old(output).bytes@.len() == 0 ==> reply@ == "(no new output)"@,
{
    read_reply(drain_buffer(output))
}

/// Answers a read with the output that a client sees of what was waiting.
pub fn read_reply(output: String) -> (reply: String)
    ensures
        reply@ == read_text(output@),
        output@.len() == 0 ==> reply@ == "(no new output)"@,
        output@.len() > 0 ==> reply@ == output@,
{
    if output.as_str().is_empty() {
        "(no new output)".to_string()
    } else {
        output
    }
}

} // verus!
