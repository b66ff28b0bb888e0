//! Removal of terminal control sequences from program output.

use vstd::prelude::*;
use vstd::utf8::*;

use crate::ansi_laws;
use crate::stream::CharStream;
use crate::text;

verus! {

/// The character that opens every control sequence.
pub const ESC: char = '\x1b';

/// The bell character, which may close an operating system command.
pub const BEL: char = '\x07';

/// A control sequence ends at an ASCII letter or a tilde.
pub open spec fn csi_ends_at(s: Seq<char>, i: int) -> bool {
    ||| 'a' <= s[i] && s[i] <= 'z'
    ||| 'A' <= s[i] && s[i] <= 'Z'
    ||| s[i] == '~'
}

/// An operating system command ends at a bell, or at a backslash that directly follows an escape.
pub open spec fn osc_ends_at(s: Seq<char>, i: int) -> bool {
    ||| s[i] == BEL
    ||| i > 0 && s[i - 1] == ESC && s[i] == '\\'
}

/// The number of characters up to and including the first one, at `from` or later, at which
/// `ends` holds; all of them where there is none.
pub open spec fn end_of(s: Seq<char>, ends: spec_fn(Seq<char>, int) -> bool, from: int) -> int
    decreases s.len() - from,
{
    if from >= s.len() {
        s.len() as int
    } else if ends(s, from) {
        from + 1
    } else {
        end_of(s, ends, from + 1)
    }
}

/// What follows the control sequence whose introducer precedes `s`.
pub open spec fn after_csi(s: Seq<char>) -> Seq<char> {
    s.skip(end_of(s, |t: Seq<char>, i: int| csi_ends_at(t, i), 0))
}

/// What follows the operating system command whose introducer precedes `s`.
pub open spec fn after_osc(s: Seq<char>) -> Seq<char> {
    s.skip(end_of(s, |t: Seq<char>, i: int| osc_ends_at(t, i), 0))
}

/// What follows the escape sequence whose escape character precedes `s`.
pub open spec fn after_escape(s: Seq<char>) -> Seq<char> {
    if s.len() == 0 {
        s
    } else if s[0] == '[' {
        after_csi(s.drop_first())
    } else if s[0] == ']' {
        after_osc(s.drop_first())
    } else {
        s.drop_first()
    }
}

/// The end lies between `from` and the end of the text.
pub proof fn lemma_end_of_bounds(s: Seq<char>, ends: spec_fn(Seq<char>, int) -> bool, from: int)
    requires
        0 <= from <= s.len(),
    ensures
        from <= end_of(s, ends, from) <= s.len(),
    decreases s.len() - from,
{
    if from < s.len() && !ends(s, from) {
        lemma_end_of_bounds(s, ends, from + 1);
    }
}

/// No escape sequence takes more than there is.
pub proof fn lemma_after_escape_shrinks(s: Seq<char>)
    ensures
        after_escape(s).len() <= s.len(),
{
    if s.len() > 0 {
        lemma_end_of_bounds(s.drop_first(), |t: Seq<char>, i: int| csi_ends_at(t, i), 0);
        lemma_end_of_bounds(s.drop_first(), |t: Seq<char>, i: int| osc_ends_at(t, i), 0);
    }
}

/// The text that a client sees of `s`: escape sequences and carriage returns are gone, all else
/// stays in its order.
pub open spec fn visible(s: Seq<char>) -> Seq<char>
    decreases s.len(),
{
    if s.len() == 0 {
        seq![]
    } else if s[0] == ESC {
        proof {
            lemma_after_escape_shrinks(s.drop_first());
        }
        visible(after_escape(s.drop_first()))
    } else if s[0] == '\r' {
        visible(s.drop_first())
    } else {
        seq![s[0]] + visible(s.drop_first())
    }
}

/// Where a stream of characters stands: outside escape sequences, or within one that is still
/// open.
#[derive(Clone, Copy, Debug, PartialEq, Eq, Structural)]
pub enum Scan {
    Outside,
    /// Directly behind the escape that opens a sequence.
    AfterEscape,
    InCsi,
    InOsc,
    /// In an operating system command, directly behind an escape.
    InOscAfterEscape,
}

/// Where `c` leaves a stream.
pub open spec fn scan_step(scan: Scan, c: char) -> Scan {
    match scan {
        Scan::Outside => if c == ESC {
            Scan::AfterEscape
        } else {
            Scan::Outside
        },
        Scan::AfterEscape => if c == '[' {
            Scan::InCsi
        } else if c == ']' {
            Scan::InOsc
        } else {
            Scan::Outside
        },
        Scan::InCsi => if csi_ends_at(seq![c], 0) {
            Scan::Outside
        } else {
            Scan::InCsi
        },
        Scan::InOsc | Scan::InOscAfterEscape => if c == BEL || (scan is InOscAfterEscape && c
            == '\\') {
            Scan::Outside
        } else if c == ESC {
            Scan::InOscAfterEscape
        } else {
            Scan::InOsc
        },
    }
}

/// Where `s` leaves a stream.
pub open spec fn scan_after(scan: Scan, s: Seq<char>) -> Scan
    decreases s.len(),
{
    if s.len() == 0 {
        scan
    } else {
        scan_after(scan_step(scan, s[0]), s.drop_first())
    }
}

/// What of `s` follows the sequence that is open before it.
pub open spec fn after_open(scan: Scan, s: Seq<char>) -> Seq<char> {
    match scan {
        Scan::Outside => s,
        Scan::AfterEscape => after_escape(s),
        Scan::InCsi => after_csi(s),
        Scan::InOsc => after_osc(s),
        Scan::InOscAfterEscape => after_osc(seq![ESC] + s),
    }
}

/// The text that a client sees of `s` where it goes on with a stream that stands at `scan`.
pub open spec fn visible_from(scan: Scan, s: Seq<char>) -> Seq<char> {
    visible(after_open(scan, s))
}

/// Where the ends in `s` are those in `s` without its first character, so is the first end.
proof fn lemma_end_shift(s: Seq<char>, ends: spec_fn(Seq<char>, int) -> bool, from: int)
    requires
        1 <= from <= s.len(),
        forall|i: int|
            1 <= i < s.len() ==> #[trigger] ends(s, i) == ends(s.drop_first(), i - 1),
    ensures
        end_of(s, ends, from) == end_of(s.drop_first(), ends, from - 1) + 1,
    decreases s.len() - from,
{
    if from < s.len() {
        assert(ends(s, from) == ends(s.drop_first(), from - 1));
        if !ends(s, from) {
            lemma_end_shift(s, ends, from + 1);
        }
    }
}

proof fn lemma_after_osc_shift(s: Seq<char>)
    requires
        s.len() > 0,
        s[0] != BEL,
        s[0] != ESC || s.len() == 1 || s[1] != '\\',
    ensures
        after_osc(s) == after_osc(s.drop_first()),
{
    let ends = |t: Seq<char>, i: int| osc_ends_at(t, i);
    let t = s.drop_first();
    assert forall|i: int| 1 <= i < s.len() implies #[trigger] ends(s, i) == ends(t, i - 1) by {}
    lemma_end_shift(s, ends, 1);
    lemma_end_of_bounds(t, ends, 0);
    assert(!ends(s, 0));
    assert(s.skip(end_of(t, ends, 0) + 1) == t.skip(end_of(t, ends, 0)));
}

/// What follows an open sequence is found character by character.
pub proof fn lemma_open_step(scan: Scan, s: Seq<char>)
    requires
        s.len() > 0,
        !(scan is Outside),
    ensures
        after_open(scan, s) == after_open(scan_step(scan, s[0]), s.drop_first()),
{
    let c = s[0];
    let t = s.drop_first();
    assert(s == seq![c] + t);
    match scan {
        Scan::Outside => {},
        Scan::AfterEscape => {},
        Scan::InCsi => {
            let ends = |t: Seq<char>, i: int| csi_ends_at(t, i);
            assert(ends(s, 0) == csi_ends_at(seq![c], 0));
            if csi_ends_at(seq![c], 0) {
                assert(s.skip(1) == t);
            } else {
                assert forall|i: int| 1 <= i < s.len() implies #[trigger] ends(s, i) == ends(
                    t,
                    i - 1,
                ) by {}
                lemma_end_shift(s, ends, 1);
                lemma_end_of_bounds(t, ends, 0);
                assert(s.skip(end_of(t, ends, 0) + 1) == t.skip(end_of(t, ends, 0)));
            }
        },
        Scan::InOsc => {
            if c == BEL {
                let ends = |t: Seq<char>, i: int| osc_ends_at(t, i);
                assert(ends(s, 0));
                assert(s.skip(1) == t);
            } else if c != ESC {
                lemma_after_osc_shift(s);
            }
        },
        Scan::InOscAfterEscape => {
            let whole = seq![ESC] + s;
            assert(whole.drop_first() == s);
            if c == BEL || c == '\\' {
                let ends = |t: Seq<char>, i: int| osc_ends_at(t, i);
                assert(!ends(whole, 0));
                assert(ends(whole, 1));
                assert(end_of(whole, ends, 1) == 2);
                assert(end_of(whole, ends, 0) == 2);
                assert(whole.skip(2) == t);
            } else {
                lemma_after_osc_shift(whole);
                if c != ESC {
                    lemma_after_osc_shift(s);
                }
            }
        },
    }
}

/// Nothing follows an open sequence where there is nothing.
pub proof fn lemma_nothing_after_nothing(scan: Scan, s: Seq<char>)
    requires
        s.len() == 0,
    ensures
        after_open(scan, s) == s,
{
    let csi = |t: Seq<char>, i: int| csi_ends_at(t, i);
    let osc = |t: Seq<char>, i: int| osc_ends_at(t, i);
    lemma_end_of_bounds(s, csi, 0);
    lemma_end_of_bounds(s, osc, 0);
    assert(after_csi(s) == s);
    assert(after_osc(s) == s);
    let esc = seq![ESC] + s;
    lemma_after_osc_shift(esc);
    assert(esc.drop_first() == s);
}

/// Whether `c` closes a control sequence.
fn is_csi_final(c: char) -> (b: bool)
    ensures
        b == csi_ends_at(seq![c], 0),
{
    ('a' <= c && c <= 'z') || ('A' <= c && c <= 'Z') || c == '~'
}

/// Takes the rest of a control sequence off the stream, as far as it is there, and says where that
/// leaves the stream.
pub fn consume_csi_sequence(chars: &mut CharStream) -> (scan: Scan)
    ensures
        final(chars)@ == after_csi(old(chars)@),
        scan_after(scan, final(chars)@) == scan_after(Scan::InCsi, old(chars)@),
        scan is Outside || final(chars)@.len() == 0,
{
    loop
        invariant
            after_csi(chars@) == after_csi(old(chars)@),
            scan_after(Scan::InCsi, chars@) == scan_after(Scan::InCsi, old(chars)@),
        decreases chars@.len(),
    {
        let ghost left = chars@;
        match chars.next() {
            None => {
                proof {
                    lemma_nothing_after_nothing(Scan::InCsi, left);
                }
                return Scan::InCsi;
            },
            Some(c) => {
                proof {
                    lemma_open_step(Scan::InCsi, left);
                }
                if is_csi_final(c) {
                    return Scan::Outside;
                }
            },
        }
    }
}

/// Takes the rest of an operating system command off the stream, as far as it is there, and says
/// where that leaves the stream.
pub fn consume_osc_sequence(chars: &mut CharStream) -> (scan: Scan)
    ensures
        final(chars)@ == after_osc(old(chars)@),
        scan_after(scan, final(chars)@) == scan_after(Scan::InOsc, old(chars)@),
        scan is Outside || final(chars)@.len() == 0,
{
    continue_osc_sequence(false, chars)
}

/// Where a stream stands within an operating system command, given whether the last character was
/// an escape.
pub open spec fn within_osc(prev_was_esc: bool) -> Scan {
    if prev_was_esc {
        Scan::InOscAfterEscape
    } else {
        Scan::InOsc
    }
}

fn continue_osc_sequence(after_esc: bool, chars: &mut CharStream) -> (scan: Scan)
    ensures
        final(chars)@ == after_open(within_osc(after_esc), old(chars)@),
        scan_after(scan, final(chars)@) == scan_after(within_osc(after_esc), old(chars)@),
        scan is Outside || final(chars)@.len() == 0,
{
    let mut prev_was_esc = after_esc;
    loop
        invariant
            after_open(within_osc(prev_was_esc), chars@) == after_open(
                within_osc(after_esc),
                old(chars)@,
            ),
            scan_after(within_osc(prev_was_esc), chars@) == scan_after(
                within_osc(after_esc),
                old(chars)@,
            ),
        decreases chars@.len(),
    {
        let ghost left = chars@;
        match chars.next() {
            None => {
                proof {
                    lemma_nothing_after_nothing(within_osc(prev_was_esc), left);
                }
                return if prev_was_esc {
                    Scan::InOscAfterEscape
                } else {
                    Scan::InOsc
                };
            },
            Some(c) => {
                proof {
                    lemma_open_step(within_osc(prev_was_esc), left);
                }
                if c == BEL || (prev_was_esc && c == '\\') {
                    return Scan::Outside;
                }
                prev_was_esc = c == ESC;
            },
        }
    }
}

/// Takes the rest of an escape sequence, whose escape character has been taken, off the stream, as
/// far as it is there, and says where that leaves the stream.
pub fn consume_escape_sequence(chars: &mut CharStream) -> (scan: Scan)
    ensures
        final(chars)@ == after_escape(old(chars)@),
        scan_after(scan, final(chars)@) == scan_after(Scan::AfterEscape, old(chars)@),
        scan is Outside || final(chars)@.len() == 0,
{
    match chars.next() {
        None => Scan::AfterEscape,
        Some(prefix) => {
            if prefix == '[' {
                consume_csi_sequence(chars)
            } else if prefix == ']' {
                consume_osc_sequence(chars)
            } else {
                Scan::Outside
            }
        },
    }
}

/// Takes the rest of the sequence that is open off the stream, as far as it is there.
fn consume_open_sequence(open: Scan, chars: &mut CharStream) -> (scan: Scan)
    ensures
        final(chars)@ == after_open(open, old(chars)@),
        scan_after(scan, final(chars)@) == scan_after(open, old(chars)@),
        scan is Outside || final(chars)@.len() == 0,
{
    match open {
        Scan::Outside => Scan::Outside,
        Scan::AfterEscape => consume_escape_sequence(chars),
        Scan::InCsi => consume_csi_sequence(chars),
        Scan::InOsc => consume_osc_sequence(chars),
        Scan::InOscAfterEscape => continue_osc_sequence(true, chars),
    }
}

/// The visible part of `text`, which goes on where the text before it left `scan`, and where it
/// leaves the text behind it.
pub fn strip_from(scan: Scan, text: &str) -> (stripped: (String, Scan))
    ensures
        stripped.0@ == visible_from(scan, text@),
        stripped.1 == scan_after(scan, text@),
{
    let mut result = String::new();
    let mut chars = CharStream::new(text);
    let mut at = consume_open_sequence(scan, &mut chars);
    assert(result@ + visible(chars@) == visible(chars@));
    loop
        invariant
            result@ + visible(chars@) == visible_from(scan, text@),
            scan_after(at, chars@) == scan_after(scan, text@),
            at is Outside || chars@.len() == 0,
        decreases chars@.len(),
    {
        let ghost left = chars@;
        match chars.next() {
            None => {
                assert(result@ + visible(left) == result@);
                return (result, at);
            },
            Some(c) => {
                if c == ESC {
                    proof {
                        lemma_after_escape_shrinks(left.drop_first());
                    }
                    at = consume_escape_sequence(&mut chars);
                } else if c != '\r' {
                    proof {
                        assert(result@ + (seq![c] + visible(chars@)) == result@.push(c) + visible(
                            chars@,
                        ));
                    }
                    result.push(c);
                }
            },
        }
    }
}

/// The visible part of `text`.
pub fn strip_text(text: &str) -> (result: String)
    ensures
        result@ == visible(text@),
{
    let (result, _) = strip_from(Scan::Outside, text);
    result
}

/// The visible part of the text that `input` encodes, which goes on where the text before it left
/// `scan`, and where it leaves the text behind it.
///
/// The visible part holds no escape and no carriage return. Bytes that are not UTF-8 are first
/// replaced as `String::from_utf8_lossy` replaces them.
pub fn strip_ansi_from(scan: Scan, input: &[u8]) -> (stripped: (String, Scan))
    ensures
        text::decodes_to(input@, text::utf8_lossy(input@)),
        stripped.0@ == visible_from(scan, text::utf8_lossy(input@)),
        stripped.1 == scan_after(scan, text::utf8_lossy(input@)),
        forall|i: int|
            0 <= i < stripped.0@.len() ==> ansi_laws::is_plain(#[trigger] stripped.0@[i]),
        !stripped.0@.contains('\x1b') && !stripped.0@.contains('\r'),
{
    let decoded = text::decode_lossy(input);
    proof {
        ansi_laws::law_visible_is_clean(after_open(scan, decoded@));
    }
    strip_from(scan, decoded.as_str())
}

/// Whether `result` is the visible part of the text that `input` encodes.
pub open spec fn strips_to(input: Seq<u8>, result: Seq<char>) -> bool {
    &&& text::decodes_to(input, text::utf8_lossy(input))
    &&& result == visible(text::utf8_lossy(input))
}

/// The visible part of the text that `input` encodes.
///
/// It holds no escape and no carriage return. Bytes that are not UTF-8 are first replaced as
/// `String::from_utf8_lossy` replaces them.
pub fn strip_ansi(input: &[u8]) -> (result: String)
    ensures
        strips_to(input@, result@),
        result@ == visible(text::utf8_lossy(input@)),
        valid_utf8(input@) ==> result@ == visible(decode_utf8(input@)),
        !input@.contains(0x1b) ==> result@ == text::utf8_lossy(input@).filter(
            |c: char| c != '\r',
        ),
        forall|i: int| 0 <= i < result@.len() ==> ansi_laws::is_plain(#[trigger] result@[i]),
        !result@.contains('\x1b') && !result@.contains('\r'),
{
    let (result, _) = strip_ansi_from(Scan::Outside, input);
    proof {
        let decoded = text::utf8_lossy(input@);
        if !input@.contains(0x1b) {
            assert forall|i: int| 0 <= i < decoded.len() implies #[trigger] decoded[i] != ESC by {
                if decoded[i] == ESC {
                    assert(input@.contains(decoded[i] as u8));
                }
            }
            ansi_laws::law_escape_free_text_loses_carriage_returns_only(decoded);
        }
    }
    result
}

} // verus!
