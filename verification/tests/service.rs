use std::sync::{Arc, Mutex};

use sandbox_shell_mcp::buffer::{append_output_chunk, OutputBuffer};
use sandbox_shell_mcp::ident::{id_from_millis, session_id};
use sandbox_shell_mcp::params::{PtyCloseParams, PtyReadParams, PtyWriteParams};
use sandbox_shell_mcp::service::{
    pty_read_reply, pty_start_reply, pty_write_outcome, pty_write_reply, read_reply, started_reply,
    written_reply, PtyMcp, StartNext, WriteNext, SETTLE_MILLIS,
};

#[derive(Debug)]
struct TestSession {
    writes: Vec<u8>,
    fail_writes: bool,
    output: Arc<Mutex<OutputBuffer>>,
    killed: bool,
}

impl TestSession {
    fn write_all(&mut self, bytes: &[u8]) -> Result<(), String> {
        if self.fail_writes {
            return Err("closed".to_string());
        }
        self.writes.extend_from_slice(bytes);
        Ok(())
    }
}

fn output_buffer(bytes: &[u8]) -> OutputBuffer {
    let mut buffer = OutputBuffer::new();
    append_output_chunk(&mut buffer, bytes);
    buffer
}

fn test_session(output: &[u8]) -> TestSession {
    TestSession {
        writes: Vec::new(),
        fail_writes: false,
        output: Arc::new(Mutex::new(output_buffer(output))),
        killed: false,
    }
}

fn open(service: &mut PtyMcp<TestSession>, id: &str, session: TestSession) {
    match service.pty_start(Ok((id.to_string(), session))) {
        StartNext::Settle { session_id, millis } => {
            assert_eq!(session_id, id);
            assert_eq!(millis, 500);
        }
        StartNext::Reply(reply) => panic!("{reply}"),
    }
}

fn read(service: &mut PtyMcp<TestSession>, id: &str) -> String {
    let params = PtyReadParams {
        session_id: id.to_string(),
    };
    let output = match service.pty_read(&params) {
        Ok(session) => session.output.clone(),
        Err(reply) => return reply,
    };
    let reply = pty_read_reply(&mut output.lock().unwrap());
    reply
}

fn write(service: &mut PtyMcp<TestSession>, id: &str, input: &str) -> String {
    let params = PtyWriteParams {
        session_id: id.to_string(),
        input: input.to_string(),
    };
    let (session, bytes) = match service.pty_write(&params) {
        Ok(found) => found,
        Err(reply) => return reply,
    };
    let outcome = session.write_all(bytes);
    match pty_write_outcome(outcome) {
        WriteNext::Settle { millis } => {
            assert_eq!(millis, SETTLE_MILLIS);
            let reply = pty_write_reply(&mut session.output.lock().unwrap());
            reply
        }
        WriteNext::Reply(reply) => reply,
    }
}

fn close(service: &mut PtyMcp<TestSession>, id: &str) -> (String, Option<TestSession>) {
    let params = PtyCloseParams {
        session_id: id.to_string(),
    };
    match service.pty_close(&params) {
        Ok((mut session, reply)) => {
            session.killed = true;
            (reply, Some(session))
        }
        Err(reply) => (reply, None),
    }
}

#[test]
fn pty_read_reports_missing_empty_and_buffered_sessions() {
    let mut service = PtyMcp::new();
    assert_eq!(read(&mut service, "missing"), "Error: session 'missing' not found");

    open(&mut service, "empty", test_session(b""));
    assert_eq!(read(&mut service, "empty"), "(no new output)");

    open(&mut service, "buffered", test_session(b"\x1b[32mok\x1b[0m"));
    assert_eq!(read(&mut service, "buffered"), "ok");
}

#[test]
fn pty_write_reports_missing_writes_input_and_drains_output() {
    let mut service = PtyMcp::new();
    assert_eq!(
        write(&mut service, "missing", "ignored"),
        "Error: session 'missing' not found"
    );

    open(&mut service, "session", test_session(b"after write"));
    assert_eq!(write(&mut service, "session", "echo hi\n"), "after write");

    let (_, session) = close(&mut service, "session");
    let session = session.unwrap();
    assert_eq!(session.writes, b"echo hi\n");
    assert_eq!(session.output.lock().unwrap().bytes, b"");
}

#[test]
fn pty_write_reports_no_immediate_output_and_write_errors() {
    let mut service = PtyMcp::new();
    open(&mut service, "quiet", test_session(b""));
    assert_eq!(
        write(&mut service, "quiet", "pwd\n"),
        "Written (no output yet — use pty_read to check later)"
    );

    let mut session = test_session(b"");
    session.fail_writes = true;
    open(&mut service, "broken", session);
    assert_eq!(write(&mut service, "broken", "pwd\n"), "Error: write failed: closed");
}

#[test]
fn pty_close_removes_session_and_kills_child() {
    let mut service = PtyMcp::new();
    let (missing, none) = close(&mut service, "missing");
    assert_eq!(missing, "Error: session 'missing' not found");
    assert!(none.is_none());

    open(&mut service, "live", test_session(b""));
    let (closed, session) = close(&mut service, "live");

    assert_eq!(closed, "Session 'live' closed");
    assert!(session.unwrap().killed);
    assert!(!service.is_open(&"live".to_string()));
}

#[test]
fn pty_start_reports_spawn_errors_and_initial_output() {
    let mut service: PtyMcp<TestSession> = PtyMcp::new();
    match service.pty_start(Err("failed to spawn: no such command".to_string())) {
        StartNext::Reply(error) => {
            assert!(error.starts_with("Error: failed to spawn:"));
            assert_eq!(error, "Error: failed to spawn: no such command");
        }
        StartNext::Settle { session_id, .. } => panic!("{session_id}"),
    }

    open(&mut service, "pty-1a", test_session(b""));
    let mut output = output_buffer(b"ready");
    let started = pty_start_reply(&"pty-1a".to_string(), &mut output);
    assert!(started.starts_with("Session started: pty-"));
    assert!(started.ends_with("\n\nready"));
    assert_eq!(output.bytes, b"");

    let session_id = started
        .lines()
        .next()
        .unwrap()
        .replace("Session started: ", "");
    let (closed, _) = close(&mut service, &session_id);
    assert!(closed.ends_with("closed"));
}

#[test]
fn start_without_output_names_the_session_only() {
    let mut output = output_buffer(b"\r\x1b[2J");
    assert_eq!(
        pty_start_reply(&"pty-0".to_string(), &mut output),
        "Session started: pty-0"
    );
    assert_eq!(
        started_reply(&"pty-0".to_string(), &"$ ".to_string()),
        "Session started: pty-0\n\n$ "
    );
}

#[test]
fn replies_pass_output_through() {
    assert_eq!(read_reply("x".to_string()), "x");
    assert_eq!(read_reply(String::new()), "(no new output)");
    assert_eq!(written_reply("x".to_string()), "x");
    assert_eq!(
        written_reply(String::new()),
        "Written (no output yet — use pty_read to check later)"
    );
}

#[test]
fn second_read_finds_nothing_new() {
    let mut service = PtyMcp::new();
    open(&mut service, "s", test_session(b"once"));
    assert_eq!(read(&mut service, "s"), "once");
    assert_eq!(read(&mut service, "s"), "(no new output)");
}

#[test]
fn nothing_is_added_to_the_input() {
    let mut service = PtyMcp::new();
    open(&mut service, "s", test_session(b""));
    write(&mut service, "s", "é");
    write(&mut service, "s", "");
    let (_, session) = close(&mut service, "s");
    assert_eq!(session.unwrap().writes, "é".as_bytes());
}

#[test]
fn sessions_do_not_disturb_each_other() {
    let mut service = PtyMcp::new();
    open(&mut service, "a", test_session(b"from a"));
    open(&mut service, "b", test_session(b"from b"));
    open(&mut service, "c", test_session(b"from c"));
    write(&mut service, "b", "x");
    close(&mut service, "b");
    assert_eq!(read(&mut service, "a"), "from a");
    assert_eq!(read(&mut service, "b"), "Error: session 'b' not found");
    assert_eq!(read(&mut service, "c"), "from c");
}

#[test]
fn a_start_under_a_taken_identifier_replaces_the_session() {
    let mut service = PtyMcp::new();
    open(&mut service, "a", test_session(b"old"));
    open(&mut service, "a", test_session(b"new"));
    assert_eq!(read(&mut service, "a"), "new");
    close(&mut service, "a");
    assert!(!service.is_open(&"a".to_string()));
}

#[test]
fn closing_twice_is_refused() {
    let mut service = PtyMcp::new();
    open(&mut service, "a", test_session(b""));
    assert!(service.is_open(&"a".to_string()));
    assert_eq!(close(&mut service, "a").0, "Session 'a' closed");
    assert_eq!(close(&mut service, "a").0, "Error: session 'a' not found");
}

#[test]
fn sessions_of_different_times_coexist() {
    let mut service = PtyMcp::new();
    let first = session_id(&id_from_millis(1_763_000_000_000));
    let second = session_id(&id_from_millis(1_763_000_000_001));
    open(&mut service, &first, test_session(b"first"));
    open(&mut service, &second, test_session(b"second"));
    assert_eq!(read(&mut service, &first), "first");
    assert_eq!(read(&mut service, &second), "second");
}

#[test]
fn a_failed_start_opens_nothing() {
    let mut service: PtyMcp<TestSession> = PtyMcp::new();
    open(&mut service, "a", test_session(b"kept"));
    match service.pty_start(Err("writer: busy".to_string())) {
        StartNext::Reply(reply) => assert_eq!(reply, "Error: writer: busy"),
        StartNext::Settle { session_id, .. } => panic!("{session_id}"),
    }
    assert_eq!(read(&mut service, "a"), "kept");
}

#[test]
fn a_sequence_cut_by_a_read_is_not_shown() {
    let mut service = PtyMcp::new();
    let session = test_session(b"a\x1b[3");
    let output = session.output.clone();
    open(&mut service, "s", session);
    assert_eq!(read(&mut service, "s"), "a");
    append_output_chunk(&mut output.lock().unwrap(), b"1mred\x1b");
    assert_eq!(read(&mut service, "s"), "red");
    append_output_chunk(&mut output.lock().unwrap(), b"]0;title\x07!");
    assert_eq!(write(&mut service, "s", "x"), "!");
}

#[test]
fn the_first_output_may_end_within_a_sequence() {
    let mut output = output_buffer(b"$ \x1b]0;ti");
    assert_eq!(
        pty_start_reply(&"pty-0".to_string(), &mut output),
        "Session started: pty-0\n\n$ "
    );
    append_output_chunk(&mut output, b"tle\x07");
    assert_eq!(pty_write_reply(&mut output), "Written (no output yet — use pty_read to check later)");
    append_output_chunk(&mut output, b"ok");
    assert_eq!(pty_read_reply(&mut output), "ok");
}

#[test]
fn a_session_lives_from_its_start_to_its_close() {
    let mut service = PtyMcp::new();
    open(&mut service, "s", test_session(b"mine"));
    open(&mut service, "other", test_session(b"theirs"));
    write(&mut service, "missing", "x");
    close(&mut service, "missing");
    write(&mut service, "other", "x");
    close(&mut service, "other");
    assert_eq!(read(&mut service, "s"), "mine");
    assert_eq!(close(&mut service, "s").0, "Session 's' closed");
    open(&mut service, "other", test_session(b""));
    let refused = "Error: session 's' not found";
    assert_eq!(read(&mut service, "s"), refused);
    assert_eq!(write(&mut service, "s", "x"), refused);
    assert_eq!(close(&mut service, "s").0, refused);
    assert_eq!(read(&mut service, "s"), refused);
}
