use sandbox_shell_mcp::ansi::{
    consume_csi_sequence, consume_escape_sequence, consume_osc_sequence, strip_ansi,
    strip_ansi_from, strip_from, strip_text, Scan,
};
use sandbox_shell_mcp::stream::CharStream;

fn rest_of(mut chars: CharStream) -> String {
    let mut rest = String::new();
    while let Some(c) = chars.next() {
        rest.push(c);
    }
    rest
}

#[test]
fn strip_ansi_handles_csi_osc_st_and_incomplete_escape() {
    let text = b"one\x1b[2Ktwo\x1b]0;ignored\x1b\\three\x1b";

    assert_eq!(strip_ansi(text), "onetwothree");
}

#[test]
fn stream_hands_out_characters_in_order() {
    let mut chars = CharStream::new("aé");
    assert_eq!(chars.next(), Some('a'));
    assert_eq!(chars.next(), Some('é'));
    assert_eq!(chars.next(), None);
    assert_eq!(chars.next(), None);
}

#[test]
fn csi_ends_at_letter_or_tilde() {
    let mut chars = CharStream::new("31;1mtext");
    consume_csi_sequence(&mut chars);
    assert_eq!(rest_of(chars), "text");

    let mut chars = CharStream::new("3~text");
    consume_csi_sequence(&mut chars);
    assert_eq!(rest_of(chars), "text");

    let mut chars = CharStream::new("?25;12");
    consume_csi_sequence(&mut chars);
    assert_eq!(rest_of(chars), "");
}

#[test]
fn osc_ends_at_bell_or_string_terminator() {
    let mut chars = CharStream::new("0;title\x07text");
    consume_osc_sequence(&mut chars);
    assert_eq!(rest_of(chars), "text");

    let mut chars = CharStream::new("8;;a\\b\x1b\x1b\\text");
    consume_osc_sequence(&mut chars);
    assert_eq!(rest_of(chars), "text");

    let mut chars = CharStream::new("0;never closed");
    consume_osc_sequence(&mut chars);
    assert_eq!(rest_of(chars), "");
}

#[test]
fn osc_is_not_closed_by_its_first_backslash() {
    let mut chars = CharStream::new("\\text\x07more");
    consume_osc_sequence(&mut chars);
    assert_eq!(rest_of(chars), "more");
}

#[test]
fn other_escapes_take_one_character() {
    let mut chars = CharStream::new("Mtext");
    consume_escape_sequence(&mut chars);
    assert_eq!(rest_of(chars), "text");

    let mut chars = CharStream::new("\x1b[31mtext");
    consume_escape_sequence(&mut chars);
    assert_eq!(rest_of(chars), "[31mtext");

    let mut chars = CharStream::new("");
    consume_escape_sequence(&mut chars);
    assert_eq!(rest_of(chars), "");
}

#[test]
fn escape_opens_csi_and_osc() {
    let mut chars = CharStream::new("[0mtext");
    consume_escape_sequence(&mut chars);
    assert_eq!(rest_of(chars), "text");

    let mut chars = CharStream::new("]0;t\x07text");
    consume_escape_sequence(&mut chars);
    assert_eq!(rest_of(chars), "text");
}

#[test]
fn carriage_returns_are_dropped() {
    assert_eq!(strip_text("a\r\nb\r"), "a\nb");
    assert_eq!(strip_text("\r\r"), "");
}

#[test]
fn plain_text_is_kept() {
    assert_eq!(strip_text("tab\tnew\nline [31m ]0; \\ ~ é 漢"), "tab\tnew\nline [31m ]0; \\ ~ é 漢");
}

#[test]
fn open_sequences_show_nothing() {
    assert_eq!(strip_text("shown\x1b[31;1"), "shown");
    assert_eq!(strip_text("shown\x1b]0;title\\"), "shown");
}

#[test]
fn stripping_twice_changes_nothing() {
    let once = strip_text("a\x1b[1mb\x1b]0;t\x1b\\c\r\x1b(d");
    assert_eq!(once, "abcd");
    assert_eq!(strip_text(&once), once);
}

#[test]
fn complete_pieces_show_what_the_whole_shows() {
    let a = "one\x1b[2K\r";
    let b = "two\x1b]0;x\x07!";
    let whole = format!("{a}{b}");
    assert_eq!(strip_text(&whole), format!("{}{}", strip_text(a), strip_text(b)));
    assert_eq!(strip_text(&whole), "onetwo!");
}

#[test]
fn order_is_kept() {
    assert_eq!(strip_text("1\x1b[mx2\r3\x1bZ4"), "1x234");
}

#[test]
fn invalid_bytes_become_replacement_characters() {
    assert_eq!(strip_ansi(b"a\xffb\x1b[1m\xc3"), "a\u{FFFD}b\u{FFFD}");
    assert_eq!(strip_ansi("\u{e9}\r\n".as_bytes()), "\u{e9}\n");
    assert_eq!(strip_ansi(b""), "");
}

#[test]
fn consuming_tells_where_the_stream_stands() {
    let csi = |text: &str| consume_csi_sequence(&mut CharStream::new(text));
    assert_eq!(csi("31mx"), Scan::Outside);
    assert_eq!(csi("31m"), Scan::Outside);
    assert_eq!(csi("31"), Scan::InCsi);
    assert_eq!(csi(""), Scan::InCsi);

    let osc = |text: &str| consume_osc_sequence(&mut CharStream::new(text));
    assert_eq!(osc("0;t\x07"), Scan::Outside);
    assert_eq!(osc("0;t\x1b\\"), Scan::Outside);
    assert_eq!(osc("0;t\x1b"), Scan::InOscAfterEscape);
    assert_eq!(osc("0;t\x1bx"), Scan::InOsc);
    assert_eq!(osc(""), Scan::InOsc);

    let escape = |text: &str| consume_escape_sequence(&mut CharStream::new(text));
    assert_eq!(escape(""), Scan::AfterEscape);
    assert_eq!(escape("["), Scan::InCsi);
    assert_eq!(escape("]"), Scan::InOsc);
    assert_eq!(escape("M"), Scan::Outside);
}

#[test]
fn text_goes_on_within_an_open_sequence() {
    let from = |scan: Scan, text: &str| strip_from(scan, text);
    assert_eq!(from(Scan::Outside, "a\x1b[3"), ("a".to_string(), Scan::InCsi));
    assert_eq!(from(Scan::InCsi, "1mred"), ("red".to_string(), Scan::Outside));
    assert_eq!(from(Scan::AfterEscape, "[1mx"), ("x".to_string(), Scan::Outside));
    assert_eq!(from(Scan::InOsc, "title\x07x"), ("x".to_string(), Scan::Outside));
    assert_eq!(from(Scan::InOsc, "\\x\x07y"), ("y".to_string(), Scan::Outside));
    assert_eq!(from(Scan::InOscAfterEscape, "\\x"), ("x".to_string(), Scan::Outside));
    assert_eq!(from(Scan::InOscAfterEscape, "\x1b\\x"), ("x".to_string(), Scan::Outside));
    assert_eq!(from(Scan::InOscAfterEscape, "x\\"), (String::new(), Scan::InOsc));
    assert_eq!(from(Scan::InCsi, ""), (String::new(), Scan::InCsi));
    assert_eq!(
        strip_ansi_from(Scan::InCsi, b"1m\xff\x1b]"),
        ("\u{FFFD}".to_string(), Scan::InOsc)
    );
}

#[test]
fn every_cut_shows_what_the_whole_shows() {
    let whole = "one\x1b[31;1mtwo\r\n\x1b]0;t\x1b\\three\x1b]2;\x1b\x1b\\\x1bMfour\x1b]8;;\x07!";
    assert_eq!(strip_text(whole), "onetwo\nthreefour!");
    for cut in 0..=whole.len() {
        let (first, scan) = strip_from(Scan::Outside, &whole[..cut]);
        let (second, end) = strip_from(scan, &whole[cut..]);
        assert_eq!(format!("{first}{second}"), "onetwo\nthreefour!");
        assert_eq!(end, Scan::Outside);
    }
}

#[test]
fn an_open_sequence_goes_on_as_behind_its_opening() {
    for (scan, opening) in [
        (Scan::Outside, ""),
        (Scan::AfterEscape, "\x1b"),
        (Scan::InCsi, "\x1b["),
        (Scan::InOsc, "\x1b]"),
        (Scan::InOscAfterEscape, "\x1b]\x1b"),
    ] {
        for text in ["", "[1mx", "\\a\x07b", "\x1b\\c~d"] {
            let whole = format!("{opening}{text}");
            assert_eq!(strip_from(scan, text).0, strip_text(&whole));
        }
    }
}

#[test]
fn any_bytes_behind_valid_complete_ones_are_stripped_apart() {
    let fronts: [&[u8]; 4] = [b"", b"caf\xc3\xa9\r\n", b"one\x1b[1m", b"\xe6\xbc\xa2\x1b]0;t\x07"];
    let backs: [&[u8]; 6] = [
        b"",
        b"two",
        b"\xa9\xff\x1b[31mx",
        b"\xc3",
        b"\xe6\xbc\x1b]\xff",
        b"\xf0\x9f\x98",
    ];
    for front in fronts {
        for back in backs {
            let whole = [front, back].concat();
            assert_eq!(
                strip_ansi(&whole),
                format!("{}{}", strip_ansi(front), strip_ansi(back))
            );
        }
    }
    assert_eq!(strip_ansi(b"caf\xc3\xa9\xa9\xffx"), "caf\u{e9}\u{FFFD}\u{FFFD}x");
}

#[test]
fn bytes_without_escapes_lose_carriage_returns_only() {
    assert_eq!(strip_ansi(b"a\r\xffb\r\n[1m"), "a\u{FFFD}b\n[1m");
}
