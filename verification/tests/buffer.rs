use std::io::{Cursor, ErrorKind, Read};

use sandbox_shell_mcp::ansi::Scan;
use sandbox_shell_mcp::buffer::{
    append_output_chunk, drain_buffer, reader_step, OutputBuffer, ReadOutcome, ReaderNext,
    READ_BLOCK,
};

fn output_buffer(bytes: &[u8]) -> OutputBuffer {
    let mut buffer = OutputBuffer::new();
    append_output_chunk(&mut buffer, bytes);
    buffer
}

fn collect(mut reader: impl Read, buffer: &mut OutputBuffer) {
    let mut block = vec![0u8; READ_BLOCK];
    loop {
        let outcome = match reader.read(&mut block) {
            Ok(n) => ReadOutcome::Read(n),
            Err(e) if e.kind() == ErrorKind::Interrupted => ReadOutcome::Interrupted,
            Err(_) => ReadOutcome::Failed,
        };
        if reader_step(buffer, &block, outcome) == ReaderNext::Stop {
            break;
        }
    }
}

#[test]
fn drain_buffer_strips_ansi_and_clears_bytes() {
    let mut buffer = output_buffer(b"\r\x1b[31mred\x1b[0m\nplain\x1b]0;title\x07!");

    let drained = drain_buffer(&mut buffer);
    let second = drain_buffer(&mut buffer);

    assert_eq!(drained, "red\nplain!");
    assert_eq!(second, "");
}

#[test]
fn reader_thread_collects_until_eof() {
    let mut buffer = output_buffer(b"");
    let reader = Cursor::new(b"hello\r\n".to_vec());

    collect(reader, &mut buffer);

    assert_eq!(drain_buffer(&mut buffer), "hello\n");
}

#[test]
fn reader_collects_more_than_one_block() {
    let mut buffer = output_buffer(b"");
    let bytes = vec![b'x'; READ_BLOCK + 3];
    collect(Cursor::new(bytes.clone()), &mut buffer);
    assert_eq!(buffer.bytes, bytes);
}

#[test]
fn chunks_are_appended_in_order() {
    let mut buffer = output_buffer(b"a");
    append_output_chunk(&mut buffer, b"bc");
    append_output_chunk(&mut buffer, b"");
    append_output_chunk(&mut buffer, b"d");
    assert_eq!(buffer.bytes, b"abcd");
}

#[test]
fn reader_keeps_only_what_was_read() {
    let mut buffer = output_buffer(b"");
    assert_eq!(reader_step(&mut buffer, b"abcd", ReadOutcome::Read(2)), ReaderNext::Continue);
    assert_eq!(reader_step(&mut buffer, b"zzzz", ReadOutcome::Interrupted), ReaderNext::Continue);
    assert_eq!(reader_step(&mut buffer, b"cdef", ReadOutcome::Read(4)), ReaderNext::Continue);
    assert_eq!(reader_step(&mut buffer, b"zzzz", ReadOutcome::Read(0)), ReaderNext::Stop);
    assert_eq!(reader_step(&mut buffer, b"zzzz", ReadOutcome::Failed), ReaderNext::Stop);
    assert_eq!(buffer.bytes, b"abcdef");
}

#[test]
fn a_character_may_arrive_in_two_chunks() {
    let mut buffer = output_buffer(b"");
    append_output_chunk(&mut buffer, b"caf\xc3");
    append_output_chunk(&mut buffer, b"\xa9\x1b[");
    append_output_chunk(&mut buffer, b"0m!");
    assert_eq!(drain_buffer(&mut buffer), "café!");
}

#[test]
fn a_sequence_may_be_cut_by_a_drain() {
    let mut buffer = output_buffer(b"a\x1b[3");
    assert_eq!(drain_buffer(&mut buffer), "a");
    append_output_chunk(&mut buffer, b"1mred");
    assert_eq!(drain_buffer(&mut buffer), "red");

    append_output_chunk(&mut buffer, b"x\x1b]0;ti");
    assert_eq!(drain_buffer(&mut buffer), "x");
    append_output_chunk(&mut buffer, b"tle\x1b");
    assert_eq!(drain_buffer(&mut buffer), "");
    assert_eq!(drain_buffer(&mut buffer), "");
    append_output_chunk(&mut buffer, b"\\y\x1b");
    assert_eq!(drain_buffer(&mut buffer), "y");
    append_output_chunk(&mut buffer, b"[0mz");
    assert_eq!(drain_buffer(&mut buffer), "z");
    assert_eq!(buffer.scan, Scan::Outside);
}

#[test]
fn byte_by_byte_drains_show_the_whole() {
    let mut buffer = OutputBuffer::new();
    let mut shown = String::new();
    for byte in b"\r\x1b[31mred\x1b[0m\nplain\x1b]0;title\x1b\\!" {
        append_output_chunk(&mut buffer, &[*byte]);
        shown.push_str(&drain_buffer(&mut buffer));
    }
    assert_eq!(shown, "red\nplain!");
}

#[test]
fn two_drains_show_what_one_shows() {
    let mut whole = output_buffer(b"one\x1b[1m\rtwo");
    let mut split = output_buffer(b"one\x1b[1m\r");
    let first = drain_buffer(&mut split);
    append_output_chunk(&mut split, b"two");
    let second = drain_buffer(&mut split);
    assert_eq!(format!("{first}{second}"), "onetwo");
    assert_eq!(drain_buffer(&mut whole), "onetwo");
}

#[test]
fn a_second_drain_may_hold_invalid_bytes() {
    let mut whole = output_buffer(b"one\x1b[3\xff1mtwo\xc3");
    let mut split = output_buffer(b"one\x1b[3");
    let first = drain_buffer(&mut split);
    append_output_chunk(&mut split, b"\xff1mtwo\xc3");
    let second = drain_buffer(&mut split);
    assert_eq!(format!("{first}{second}"), "onetwo\u{FFFD}");
    assert_eq!(drain_buffer(&mut whole), "onetwo\u{FFFD}");
    assert_eq!(whole.scan, split.scan);
}
