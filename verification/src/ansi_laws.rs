//! What holds of the visible text of every input.

use vstd::prelude::*;
use vstd::utf8::*;

use crate::ansi;
use crate::ansi::{Scan, BEL, ESC};
use crate::text;

verus! {

/// Whether the escape sequence whose escape character precedes `s` is complete within `s`.
pub open spec fn escape_closed(s: Seq<char>) -> bool {
    &&& s.len() > 0
    &&& s[0] == '[' ==> exists|i: int|
        0 <= i < s.len() - 1 && #[trigger] ansi::csi_ends_at(s.drop_first(), i)
    &&& s[0] == ']' ==> exists|i: int|
        0 <= i < s.len() - 1 && #[trigger] ansi::osc_ends_at(s.drop_first(), i)
}

/// Whether every escape sequence that starts in `s` is complete within `s`.
pub open spec fn settled(s: Seq<char>) -> bool {
    ansi::scan_after(Scan::Outside, s) is Outside
}

/// The shortest text that leaves a stream at `scan`.
pub open spec fn opening(scan: Scan) -> Seq<char> {
    match scan {
        Scan::Outside => seq![],
        Scan::AfterEscape => seq![ESC],
        Scan::InCsi => seq![ESC, '['],
        Scan::InOsc => seq![ESC, ']'],
        Scan::InOscAfterEscape => seq![ESC, ']', ESC],
    }
}

/// Whether `c` is neither an escape nor a carriage return.
pub open spec fn is_plain(c: char) -> bool {
    c != ESC && c != '\r'
}

/// A control sequence with the given parameter characters and final character.
pub open spec fn csi_sequence(params: Seq<char>, last: char) -> Seq<char> {
    seq![ESC, '['] + params + seq![last]
}

/// An operating system command that a bell closes.
pub open spec fn osc_with_bell(payload: Seq<char>) -> Seq<char> {
    seq![ESC, ']'] + payload + seq![BEL]
}

/// An operating system command that a string terminator closes.
pub open spec fn osc_with_terminator(payload: Seq<char>) -> Seq<char> {
    seq![ESC, ']'] + payload + seq![ESC, '\\']
}

/// Whether the characters of `part` stand in `whole`, in the same order, at the places `at`.
pub open spec fn embeds(part: Seq<char>, whole: Seq<char>, at: Seq<int>) -> bool {
    &&& at.len() == part.len()
    &&& forall|k: int| 0 <= k < at.len() ==> 0 <= #[trigger] at[k] < whole.len()
    &&& forall|k: int| 0 <= k < at.len() ==> #[trigger] part[k] == whole[at[k]]
    &&& forall|j: int, k: int| 0 <= j < k < at.len() ==> at[j] < at[k]
}

proof fn lemma_end_found(
    s: Seq<char>,
    ends: spec_fn(Seq<char>, int) -> bool,
    from: int,
    k: int,
)
    requires
        0 <= from <= k < s.len(),
        ends(s, k),
        forall|i: int| from <= i < k ==> !#[trigger] ends(s, i),
    ensures
        ansi::end_of(s, ends, from) == k + 1,
    decreases k - from,
{
    if from < k {
        assert(!ends(s, from));
        lemma_end_found(s, ends, from + 1, k);
    }
}

proof fn lemma_end_missing(s: Seq<char>, ends: spec_fn(Seq<char>, int) -> bool, from: int)
    requires
        0 <= from <= s.len(),
        forall|i: int| from <= i < s.len() ==> !#[trigger] ends(s, i),
    ensures
        ansi::end_of(s, ends, from) == s.len(),
    decreases s.len() - from,
{
    if from < s.len() {
        assert(!ends(s, from));
        lemma_end_missing(s, ends, from + 1);
    }
}

/// What is visible is found character by character.
proof fn lemma_visible_step(scan: Scan, s: Seq<char>)
    requires
        s.len() > 0,
    ensures
        ansi::visible_from(scan, s) == (if scan is Outside && is_plain(s[0]) {
            seq![s[0]]
        } else {
            seq![]
        }) + ansi::visible_from(ansi::scan_step(scan, s[0]), s.drop_first()),
{
    let rest = ansi::visible_from(ansi::scan_step(scan, s[0]), s.drop_first());
    assert(Seq::<char>::empty() + rest == rest);
    if !(scan is Outside) {
        ansi::lemma_open_step(scan, s);
    }
}

/// However a text is cut in two, the second piece is shown as what it is in the whole: its part of
/// a sequence that the first piece left open is not shown.
pub proof fn law_pieces_show_what_the_whole_shows(scan: Scan, a: Seq<char>, b: Seq<char>)
    ensures
        ansi::visible_from(scan, a + b) == ansi::visible_from(scan, a) + ansi::visible_from(
            ansi::scan_after(scan, a),
            b,
        ),
        ansi::scan_after(scan, a + b) == ansi::scan_after(ansi::scan_after(scan, a), b),
    decreases a.len(),
{
    if a.len() == 0 {
        assert(a + b == b);
        ansi::lemma_nothing_after_nothing(scan, a);
        assert(ansi::visible_from(scan, a) == Seq::<char>::empty());
        assert(Seq::<char>::empty() + ansi::visible_from(scan, b) == ansi::visible_from(scan, b));
    } else {
        let t = a.drop_first();
        let next = ansi::scan_step(scan, a[0]);
        assert((a + b).drop_first() == t + b);
        lemma_visible_step(scan, a);
        lemma_visible_step(scan, a + b);
        law_pieces_show_what_the_whole_shows(next, t, b);
        let head = if scan is Outside && is_plain(a[0]) {
            seq![a[0]]
        } else {
            seq![]
        };
        let last = ansi::visible_from(ansi::scan_after(next, t), b);
        assert(head + (ansi::visible_from(next, t) + last) == (head + ansi::visible_from(next, t))
            + last);
    }
}

/// A text that goes on with an open sequence is shown as if the opening of such a sequence stood
/// before it.
pub proof fn law_open_sequence_goes_on(scan: Scan, s: Seq<char>)
    ensures
        ansi::scan_after(Scan::Outside, opening(scan)) == scan,
        ansi::visible_from(scan, s) == ansi::visible(opening(scan) + s),
{
    reveal_with_fuel(ansi::scan_after, 4);
    let whole = opening(scan) + s;
    match scan {
        Scan::Outside => {
            assert(whole == s);
        },
        Scan::AfterEscape => {
            assert(whole.drop_first() == s);
        },
        Scan::InCsi | Scan::InOsc => {
            assert(whole.drop_first().drop_first() == s);
        },
        Scan::InOscAfterEscape => {
            assert(whole.drop_first().drop_first() == seq![ESC] + s);
        },
    }
}

/// Text that follows complete text is shown as if it stood alone: `a` and `b` in one piece show
/// what they show one after the other.
pub proof fn law_visible_concat(a: Seq<char>, b: Seq<char>)
    requires
        settled(a),
    ensures
        ansi::visible(a + b) == ansi::visible(a) + ansi::visible(b),
        settled(a + b) == settled(b),
{
    law_pieces_show_what_the_whole_shows(Scan::Outside, a, b);
}

/// The visible text holds no escape and no carriage return.
pub proof fn law_visible_is_clean(s: Seq<char>)
    ensures
        forall|i: int|
            0 <= i < ansi::visible(s).len() ==> is_plain(#[trigger] ansi::visible(s)[i]),
    decreases s.len(),
{
    if s.len() > 0 {
        if s[0] == ESC {
            let rest = ansi::after_escape(s.drop_first());
            ansi::lemma_after_escape_shrinks(s.drop_first());
            law_visible_is_clean(rest);
            assert(ansi::visible(s) == ansi::visible(rest));
        } else {
            let rest = ansi::visible(s.drop_first());
            law_visible_is_clean(s.drop_first());
            if s[0] == '\r' {
                assert(ansi::visible(s) == rest);
            } else {
                assert forall|i: int| 0 <= i < ansi::visible(s).len() implies is_plain(
                    #[trigger] ansi::visible(s)[i],
                ) by {
                    if i > 0 {
                        assert(ansi::visible(s)[i] == rest[i - 1]);
                    }
                }
            }
        }
    }
}

/// Text without escapes and carriage returns is shown unchanged, and is complete.
pub proof fn law_plain_text_is_kept(s: Seq<char>)
    requires
        forall|i: int| 0 <= i < s.len() ==> is_plain(#[trigger] s[i]),
    ensures
        ansi::visible(s) == s,
        settled(s),
    decreases s.len(),
{
    if s.len() > 0 {
        assert forall|i: int| 0 <= i < s.drop_first().len() implies is_plain(
            #[trigger] s.drop_first()[i],
        ) by {
            assert(is_plain(s[i + 1]));
        }
        law_plain_text_is_kept(s.drop_first());
        assert(is_plain(s[0]));
        assert(s == seq![s[0]] + s.drop_first());
    }
}

/// Text without escapes is shown without its carriage returns, else unchanged, and is complete.
pub proof fn law_escape_free_text_loses_carriage_returns_only(s: Seq<char>)
    requires
        forall|i: int| 0 <= i < s.len() ==> #[trigger] s[i] != ESC,
    ensures
        ansi::visible(s) == s.filter(|c: char| c != '\r'),
        settled(s),
    decreases s.len(),
{
    reveal(Seq::filter);
    if s.len() > 0 {
        let front = s.drop_last();
        let last = seq![s.last()];
        assert(forall|i: int| 0 <= i < front.len() ==> #[trigger] front[i] == s[i]);
        law_escape_free_text_loses_carriage_returns_only(front);
        assert(s == front + last);
        law_visible_concat(front, last);
        assert(last.drop_first() == Seq::<char>::empty());
        assert(ansi::visible(last.drop_first()) == Seq::<char>::empty());
        assert(ansi::scan_after(Scan::Outside, last.drop_first()) is Outside);
        if s.last() == '\r' {
            assert(ansi::visible(front) + Seq::<char>::empty() == ansi::visible(front));
        } else {
            assert(ansi::visible(front) + ansi::visible(last) == ansi::visible(front).push(
                s.last(),
            ));
        }
    }
}

/// Valid bytes without an escape byte encode text without an escape.
proof fn lemma_escape_free_bytes(bytes: Seq<u8>)
    requires
        valid_utf8(bytes),
        !bytes.contains(0x1b),
    ensures
        forall|i: int|
            0 <= i < decode_utf8(bytes).len() ==> #[trigger] decode_utf8(bytes)[i] != ESC,
    decreases bytes.len(),
{
    if bytes.len() > 0 {
        let rest = pop_first_scalar(bytes);
        let first = decode_first_scalar(bytes) as char;
        if first == ESC {
            decode_utf8_first_scalar(bytes);
            assert(0x1bu32 & 0x7f == 0x1b) by (bit_vector);
            assert(take_first_scalar(bytes)[0] == 0x1b);
            assert(bytes.contains(bytes[0]));
        }
        assert forall|i: int| 0 <= i < rest.len() implies #[trigger] rest[i] != 0x1b by {
            assert(bytes.contains(rest[i]));
        }
        lemma_escape_free_bytes(rest);
        let text = decode_utf8(bytes);
        assert forall|i: int| 0 <= i < text.len() implies #[trigger] text[i] != ESC by {
            if i > 0 {
                assert(text[i] == decode_utf8(rest)[i - 1]);
            }
        }
    }
}

/// Valid bytes without an escape byte are complete.
pub proof fn law_escape_free_bytes_are_settled(bytes: Seq<u8>)
    requires
        valid_utf8(bytes),
        !bytes.contains(0x1b),
    ensures
        settled(decode_utf8(bytes)),
{
    lemma_escape_free_bytes(bytes);
    law_escape_free_text_loses_carriage_returns_only(decode_utf8(bytes));
}

/// Valid bytes that follow complete ones are stripped as if they stood alone.
pub proof fn law_strip_concat(a: Seq<u8>, b: Seq<u8>)
    requires
        valid_utf8(a),
        valid_utf8(b),
        settled(decode_utf8(a)),
    ensures
        valid_utf8(a + b),
        ansi::visible(decode_utf8(a + b)) == ansi::visible(decode_utf8(a)) + ansi::visible(
            decode_utf8(b),
        ),
{
    text::lemma_decode_concat(a, b);
    law_visible_concat(decode_utf8(a), decode_utf8(b));
}

/// Any bytes that follow valid and complete ones are stripped as if they stood alone: `whole`,
/// stripped of both together, is `first` and `second`, stripped of each.
pub proof fn law_strip_any_concat(
    a: Seq<u8>,
    b: Seq<u8>,
    first: Seq<char>,
    second: Seq<char>,
    whole: Seq<char>,
)
    requires
        valid_utf8(a),
        settled(decode_utf8(a)),
        ansi::strips_to(a, first),
        ansi::strips_to(b, second),
        ansi::strips_to(a + b, whole),
    ensures
        whole == first + second,
{
    text::lemma_decodes_apart(a, b, text::utf8_lossy(a + b));
    law_visible_concat(decode_utf8(a), text::utf8_lossy(b));
}

/// Any bytes that follow valid ones without an escape byte are stripped as if they stood alone.
pub proof fn law_strip_after_escape_free(
    a: Seq<u8>,
    b: Seq<u8>,
    first: Seq<char>,
    second: Seq<char>,
    whole: Seq<char>,
)
    requires
        valid_utf8(a),
        !a.contains(0x1b),
        ansi::strips_to(a, first),
        ansi::strips_to(b, second),
        ansi::strips_to(a + b, whole),
    ensures
        whole == first + second,
{
    law_escape_free_bytes_are_settled(a);
    law_strip_any_concat(a, b, first, second, whole);
}

/// To strip stripped text changes nothing.
pub proof fn law_visible_is_idempotent(s: Seq<char>)
    ensures
        ansi::visible(ansi::visible(s)) == ansi::visible(s),
{
    law_visible_is_clean(s);
    law_plain_text_is_kept(ansi::visible(s));
}

/// An escape sequence that `b` follows can be cut out of the text around it.
proof fn lemma_cut_out(a: Seq<char>, body: Seq<char>, b: Seq<char>)
    requires
        settled(a),
        ansi::after_escape(body + b) == b,
    ensures
        ansi::visible(a + (seq![ESC] + body) + b) == ansi::visible(a) + ansi::visible(b),
{
    let tail = seq![ESC] + body + b;
    law_visible_concat(a, tail);
    assert(a + (seq![ESC] + body) + b == a + tail);
    assert(tail.drop_first() == body + b);
}

/// A control sequence vanishes, whatever complete text stands before it and whatever text stands
/// behind it.
pub proof fn law_csi_is_removed(a: Seq<char>, params: Seq<char>, last: char, b: Seq<char>)
    requires
        settled(a),
        forall|i: int| 0 <= i < params.len() ==> !#[trigger] ansi::csi_ends_at(params, i),
        ansi::csi_ends_at(seq![last], 0),
    ensures
        ansi::visible(a + csi_sequence(params, last) + b) == ansi::visible(a) + ansi::visible(b),
{
    let ends = |t: Seq<char>, i: int| ansi::csi_ends_at(t, i);
    let n = params.len() as int;
    let body = seq!['['] + params + seq![last];
    let rest = params + seq![last] + b;
    assert((body + b).drop_first() == rest);
    assert forall|i: int| 0 <= i < n implies !#[trigger] ends(rest, i) by {
        assert(!ansi::csi_ends_at(params, i));
    }
    assert(seq![last][0] == last);
    assert(ends(rest, n));
    lemma_end_found(rest, ends, 0, n);
    assert(rest.skip(n + 1) == b);
    lemma_cut_out(a, body, b);
    assert(csi_sequence(params, last) == seq![ESC] + body);
}

/// An operating system command that a bell closes vanishes in the same way.
pub proof fn law_osc_with_bell_is_removed(a: Seq<char>, payload: Seq<char>, b: Seq<char>)
    requires
        settled(a),
        forall|i: int| 0 <= i < payload.len() ==> !#[trigger] ansi::osc_ends_at(payload, i),
    ensures
        ansi::visible(a + osc_with_bell(payload) + b) == ansi::visible(a) + ansi::visible(b),
{
    let ends = |t: Seq<char>, i: int| ansi::osc_ends_at(t, i);
    let n = payload.len() as int;
    let body = seq![']'] + payload + seq![BEL];
    let rest = payload + seq![BEL] + b;
    assert((body + b).drop_first() == rest);
    assert forall|i: int| 0 <= i < n implies !#[trigger] ends(rest, i) by {
        assert(!ansi::osc_ends_at(payload, i));
    }
    assert(ends(rest, n));
    lemma_end_found(rest, ends, 0, n);
    assert(rest.skip(n + 1) == b);
    lemma_cut_out(a, body, b);
    assert(osc_with_bell(payload) == seq![ESC] + body);
}

/// An operating system command that a string terminator closes vanishes in the same way.
pub proof fn law_osc_with_terminator_is_removed(a: Seq<char>, payload: Seq<char>, b: Seq<char>)
    requires
        settled(a),
        forall|i: int| 0 <= i < payload.len() ==> !#[trigger] ansi::osc_ends_at(payload, i),
    ensures
        ansi::visible(a + osc_with_terminator(payload) + b) == ansi::visible(a) + ansi::visible(b),
{
    let ends = |t: Seq<char>, i: int| ansi::osc_ends_at(t, i);
    let n = payload.len() as int;
    let body = seq![']'] + payload + seq![ESC, '\\'];
    let rest = payload + seq![ESC, '\\'] + b;
    assert((body + b).drop_first() == rest);
    assert forall|i: int| 0 <= i < n + 1 implies !#[trigger] ends(rest, i) by {
        if i < n {
            assert(!ansi::osc_ends_at(payload, i));
        }
    }
    assert(ends(rest, n + 1));
    lemma_end_found(rest, ends, 0, n + 1);
    assert(rest.skip(n + 2) == b);
    lemma_cut_out(a, body, b);
    assert(osc_with_terminator(payload) == seq![ESC] + body);
}

/// An escape with any other character behind it vanishes together with that character.
pub proof fn law_short_escape_is_removed(a: Seq<char>, c: char, b: Seq<char>)
    requires
        settled(a),
        c != '[',
        c != ']',
    ensures
        ansi::visible(a + seq![ESC, c] + b) == ansi::visible(a) + ansi::visible(b),
{
    assert((seq![c] + b).drop_first() == b);
    lemma_cut_out(a, seq![c], b);
    assert(seq![ESC, c] == seq![ESC] + seq![c]);
}

/// A carriage return outside escape sequences vanishes.
pub proof fn law_carriage_return_is_removed(a: Seq<char>, b: Seq<char>)
    requires
        settled(a),
    ensures
        ansi::visible(a + seq!['\r'] + b) == ansi::visible(a) + ansi::visible(b),
{
    let tail = seq!['\r'] + b;
    law_visible_concat(a, tail);
    assert(a + seq!['\r'] + b == a + tail);
    assert(tail.drop_first() == b);
}

/// An escape sequence that is cut off by the end of the text shows nothing, down to its last
/// character.
pub proof fn law_open_escape_is_removed(a: Seq<char>, tail: Seq<char>)
    requires
        settled(a),
        !escape_closed(tail),
    ensures
        ansi::visible(a + seq![ESC] + tail) == ansi::visible(a),
{
    let piece = seq![ESC] + tail;
    assert(piece.drop_first() == tail);
    if tail.len() > 0 {
        let body = tail.drop_first();
        let csi = |t: Seq<char>, i: int| ansi::csi_ends_at(t, i);
        let osc = |t: Seq<char>, i: int| ansi::osc_ends_at(t, i);
        if tail[0] == '[' {
            assert(forall|i: int| 0 <= i < body.len() ==> !#[trigger] ansi::csi_ends_at(body, i));
            lemma_end_missing(body, csi, 0);
        } else {
            assert(forall|i: int| 0 <= i < body.len() ==> !#[trigger] ansi::osc_ends_at(body, i));
            lemma_end_missing(body, osc, 0);
        }
    }
    assert(ansi::after_escape(tail).len() == 0);
    assert(ansi::visible(ansi::after_escape(tail)) == Seq::<char>::empty());
    law_visible_concat(a, piece);
    assert(a + seq![ESC] + tail == a + piece);
    assert(ansi::visible(a) + ansi::visible(piece) == ansi::visible(a));
}

/// Where the whole of a piece vanishes and so does its front, its rest vanishes too.
proof fn lemma_rest_vanishes(a: Seq<char>, piece: Seq<char>, b: Seq<char>, k: int)
    requires
        0 <= k <= piece.len(),
        ansi::visible(a + piece + b) == ansi::visible(a) + ansi::visible(b),
        ansi::visible(a + piece.take(k)) == ansi::visible(a),
    ensures
        ansi::visible_from(
            ansi::scan_after(Scan::Outside, a + piece.take(k)),
            piece.skip(k) + b,
        ) == ansi::visible(b),
{
    let front = a + piece.take(k);
    let back = piece.skip(k) + b;
    let shown = ansi::visible_from(ansi::scan_after(Scan::Outside, front), back);
    law_pieces_show_what_the_whole_shows(Scan::Outside, front, back);
    assert(front + back == a + piece + b);
    let n = ansi::visible(a).len() as int;
    assert((ansi::visible(a) + shown).skip(n) == shown);
    assert((ansi::visible(a) + ansi::visible(b)).skip(n) == ansi::visible(b));
}

/// A control sequence vanishes wherever it is cut in two: neither its front nor its rest is shown.
pub proof fn law_cut_csi_is_removed(
    a: Seq<char>,
    params: Seq<char>,
    last: char,
    b: Seq<char>,
    k: int,
)
    requires
        settled(a),
        forall|i: int| 0 <= i < params.len() ==> !#[trigger] ansi::csi_ends_at(params, i),
        ansi::csi_ends_at(seq![last], 0),
        0 <= k <= csi_sequence(params, last).len(),
    ensures
        ansi::visible(a + csi_sequence(params, last).take(k)) == ansi::visible(a),
        ansi::visible_from(
            ansi::scan_after(Scan::Outside, a + csi_sequence(params, last).take(k)),
            csi_sequence(params, last).skip(k) + b,
        ) == ansi::visible(b),
{
    let piece = csi_sequence(params, last);
    law_csi_is_removed(a, params, last, b);
    if k == 0 {
        assert(a + piece.take(k) == a);
    } else if k == piece.len() {
        law_csi_is_removed(a, params, last, seq![]);
        assert(a + piece.take(k) == a + piece + Seq::<char>::empty());
        assert(ansi::visible(a) + Seq::<char>::empty() == ansi::visible(a));
    } else {
        let tail = piece.take(k).drop_first();
        assert forall|i: int| 0 <= i < tail.len() - 1 implies !#[trigger] ansi::csi_ends_at(
            tail.drop_first(),
            i,
        ) by {
            assert(tail.drop_first()[i] == params[i]);
            assert(!ansi::csi_ends_at(params, i));
        }
        law_open_escape_is_removed(a, tail);
        assert(a + piece.take(k) == a + seq![ESC] + tail);
    }
    lemma_rest_vanishes(a, piece, b, k);
}

/// An operating system command that a bell closes vanishes wherever it is cut in two.
pub proof fn law_cut_osc_with_bell_is_removed(
    a: Seq<char>,
    payload: Seq<char>,
    b: Seq<char>,
    k: int,
)
    requires
        settled(a),
        forall|i: int| 0 <= i < payload.len() ==> !#[trigger] ansi::osc_ends_at(payload, i),
        0 <= k <= osc_with_bell(payload).len(),
    ensures
        ansi::visible(a + osc_with_bell(payload).take(k)) == ansi::visible(a),
        ansi::visible_from(
            ansi::scan_after(Scan::Outside, a + osc_with_bell(payload).take(k)),
            osc_with_bell(payload).skip(k) + b,
        ) == ansi::visible(b),
{
    let piece = osc_with_bell(payload);
    law_osc_with_bell_is_removed(a, payload, b);
    if k == 0 {
        assert(a + piece.take(k) == a);
    } else if k == piece.len() {
        law_osc_with_bell_is_removed(a, payload, seq![]);
        assert(a + piece.take(k) == a + piece + Seq::<char>::empty());
        assert(ansi::visible(a) + Seq::<char>::empty() == ansi::visible(a));
    } else {
        assert(piece.take(k) == (seq![ESC, ']'] + payload + seq![ESC]).take(k));
        lemma_open_osc_is_removed(a, payload, piece.take(k));
    }
    lemma_rest_vanishes(a, piece, b, k);
}

/// An operating system command that a string terminator closes vanishes wherever it is cut in two,
/// within the terminator too.
pub proof fn law_cut_osc_with_terminator_is_removed(
    a: Seq<char>,
    payload: Seq<char>,
    b: Seq<char>,
    k: int,
)
    requires
        settled(a),
        forall|i: int| 0 <= i < payload.len() ==> !#[trigger] ansi::osc_ends_at(payload, i),
        0 <= k <= osc_with_terminator(payload).len(),
    ensures
        ansi::visible(a + osc_with_terminator(payload).take(k)) == ansi::visible(a),
        ansi::visible_from(
            ansi::scan_after(Scan::Outside, a + osc_with_terminator(payload).take(k)),
            osc_with_terminator(payload).skip(k) + b,
        ) == ansi::visible(b),
{
    let piece = osc_with_terminator(payload);
    law_osc_with_terminator_is_removed(a, payload, b);
    if k == 0 {
        assert(a + piece.take(k) == a);
    } else if k == piece.len() {
        law_osc_with_terminator_is_removed(a, payload, seq![]);
        assert(a + piece.take(k) == a + piece + Seq::<char>::empty());
        assert(ansi::visible(a) + Seq::<char>::empty() == ansi::visible(a));
    } else {
        assert(piece.take(k) == (seq![ESC, ']'] + payload + seq![ESC]).take(k));
        lemma_open_osc_is_removed(a, payload, piece.take(k));
    }
    lemma_rest_vanishes(a, piece, b, k);
}

/// The front of an operating system command, up to the last escape of its terminator, is not shown.
proof fn lemma_open_osc_is_removed(a: Seq<char>, payload: Seq<char>, front: Seq<char>)
    requires
        settled(a),
        forall|i: int| 0 <= i < payload.len() ==> !#[trigger] ansi::osc_ends_at(payload, i),
        0 < front.len() <= payload.len() + 3,
        front == (seq![ESC, ']'] + payload + seq![ESC]).take(front.len() as int),
    ensures
        ansi::visible(a + front) == ansi::visible(a),
{
    let whole = seq![ESC, ']'] + payload + seq![ESC];
    let tail = front.drop_first();
    assert forall|i: int| 0 <= i < front.len() implies front[i] == whole[i] by {
        assert(front[i] == whole.take(front.len() as int)[i]);
    }
    assert forall|i: int| 0 <= i < tail.len() - 1 implies !#[trigger] ansi::osc_ends_at(
        tail.drop_first(),
        i,
    ) by {
        assert(tail.drop_first()[i] == whole[i + 2]);
        if i > 0 {
            assert(tail.drop_first()[i - 1] == whole[i + 1]);
        }
        if i < payload.len() {
            assert(!ansi::osc_ends_at(payload, i));
        }
    }
    law_open_escape_is_removed(a, tail);
    assert(a + front == a + seq![ESC] + tail);
}

proof fn lemma_after_escape_is_suffix(s: Seq<char>)
    ensures
        ansi::after_escape(s).len() <= s.len(),
        ansi::after_escape(s) == s.skip(s.len() - ansi::after_escape(s).len()),
{
    if s.len() > 0 {
        let t = s.drop_first();
        let csi = |t: Seq<char>, i: int| ansi::csi_ends_at(t, i);
        let osc = |t: Seq<char>, i: int| ansi::osc_ends_at(t, i);
        ansi::lemma_end_of_bounds(t, csi, 0);
        ansi::lemma_end_of_bounds(t, osc, 0);
        assert(t.skip(ansi::end_of(t, csi, 0)) == s.skip(ansi::end_of(t, csi, 0) + 1));
        assert(t.skip(ansi::end_of(t, osc, 0)) == s.skip(ansi::end_of(t, osc, 0) + 1));
    }
}

proof fn lemma_embeds_in_suffix(part: Seq<char>, whole: Seq<char>, drop: int, at: Seq<int>)
    requires
        0 <= drop <= whole.len(),
        embeds(part, whole.skip(drop), at),
    ensures
        embeds(part, whole, Seq::new(at.len(), |k: int| at[k] + drop)),
{
    let moved = Seq::new(at.len(), |k: int| at[k] + drop);
    assert forall|k: int| 0 <= k < moved.len() implies #[trigger] part[k] == whole[moved[k]] by {
        assert(part[k] == whole.skip(drop)[at[k]]);
    }
    assert forall|k: int| 0 <= k < moved.len() implies 0 <= #[trigger] moved[k] < whole.len() by {
        assert(0 <= at[k] < whole.skip(drop).len());
    }
}

/// Nothing is added and nothing changes place: the visible characters stand in the input, in the
/// same order.
pub proof fn law_visible_keeps_order(s: Seq<char>)
    ensures
        exists|at: Seq<int>| embeds(ansi::visible(s), s, at),
    decreases s.len(),
{
    if s.len() == 0 {
        assert(embeds(ansi::visible(s), s, seq![]));
    } else if s[0] == ESC {
        let rest = ansi::after_escape(s.drop_first());
        lemma_after_escape_is_suffix(s.drop_first());
        law_visible_keeps_order(rest);
        let at = choose|at: Seq<int>| embeds(ansi::visible(rest), rest, at);
        let drop = s.len() - rest.len();
        assert(rest == s.skip(drop));
        lemma_embeds_in_suffix(ansi::visible(rest), s, drop, at);
        assert(ansi::visible(s) == ansi::visible(rest));
    } else {
        let rest = s.drop_first();
        law_visible_keeps_order(rest);
        let at = choose|at: Seq<int>| embeds(ansi::visible(rest), rest, at);
        assert(rest == s.skip(1));
        lemma_embeds_in_suffix(ansi::visible(rest), s, 1, at);
        if s[0] == '\r' {
            assert(ansi::visible(s) == ansi::visible(rest));
        } else {
            let moved = Seq::new(at.len(), |k: int| at[k] + 1);
            let whole = seq![0int] + moved;
            assert forall|k: int| 0 <= k < whole.len() implies 0 <= #[trigger] whole[k]
                < s.len() by {
                if k > 0 {
                    assert(0 <= moved[k - 1] < s.len());
                }
            }
            assert forall|k: int| 0 <= k < whole.len() implies #[trigger] ansi::visible(s)[k]
                == s[whole[k]] by {
                if k > 0 {
                    assert(ansi::visible(rest)[k - 1] == s[moved[k - 1]]);
                }
            }
            assert forall|j: int, k: int| 0 <= j < k < whole.len() implies whole[j] < whole[k] by {
                assert(0 <= at[k - 1] < rest.len());
                if j > 0 {
                    assert(moved[j - 1] < moved[k - 1]);
                }
            }
            assert(embeds(ansi::visible(s), s, whole));
        }
    }
}

/// Nothing is shown of nothing.
pub proof fn law_nothing_shows_nothing()
    ensures
        ansi::visible(seq![]) == Seq::<char>::empty(),
{
}

/// A character that is neither an escape nor a carriage return is shown, and what follows it is
/// shown behind it; a carriage return is not shown, and what follows it is.
pub proof fn law_characters_are_shown_one_by_one(c: char, s: Seq<char>)
    ensures
        c != '\x1b' && c != '\r' ==> ansi::visible(seq![c] + s) == seq![c] + ansi::visible(s),
        ansi::visible(seq!['\r'] + s) == ansi::visible(s),
{
    assert((seq![c] + s).drop_first() == s);
    assert((seq!['\r'] + s).drop_first() == s);
}

/// A control sequence is closed by the first ASCII letter or tilde behind its opening, whichever it
/// is, and by nothing before it: what follows is shown as if it stood alone.
pub proof fn law_csi_is_closed_by_letter_or_tilde(params: Seq<char>, last: char, s: Seq<char>)
    requires
        forall|i: int|
            0 <= i < params.len() ==> !('a' <= #[trigger] params[i] && params[i] <= 'z') && !('A'
                <= params[i] && params[i] <= 'Z') && params[i] != '~',
        ('a' <= last && last <= 'z') || ('A' <= last && last <= 'Z') || last == '~',
    ensures
        ansi::visible(seq!['\x1b', '['] + params + seq![last] + s) == ansi::visible(s),
        ansi::after_csi(params + seq![last] + s) == s,
{
    let ends = |t: Seq<char>, i: int| ansi::csi_ends_at(t, i);
    let n = params.len() as int;
    let rest = params + seq![last] + s;
    assert forall|i: int| 0 <= i < n implies !#[trigger] ends(rest, i) by {
        assert(rest[i] == params[i]);
    }
    assert(rest[n] == last);
    assert(ends(rest, n));
    lemma_end_found(rest, ends, 0, n);
    assert(rest.skip(n + 1) == s);
    let whole = seq!['\x1b', '['] + params + seq![last] + s;
    assert(whole.drop_first().drop_first() == rest);
}

/// Nothing else closes a control sequence: without an ASCII letter or tilde behind its opening,
/// nothing more is shown.
pub proof fn law_csi_is_closed_by_nothing_else(params: Seq<char>)
    requires
        forall|i: int|
            0 <= i < params.len() ==> !('a' <= #[trigger] params[i] && params[i] <= 'z') && !('A'
                <= params[i] && params[i] <= 'Z') && params[i] != '~',
    ensures
        ansi::visible(seq!['\x1b', '['] + params) == Seq::<char>::empty(),
        ansi::after_csi(params) == Seq::<char>::empty(),
{
    let ends = |t: Seq<char>, i: int| ansi::csi_ends_at(t, i);
    assert forall|i: int| 0 <= i < params.len() implies !#[trigger] ends(params, i) by {
        assert(params[i] == params[i]);
    }
    lemma_end_missing(params, ends, 0);
    assert(ansi::after_csi(params) == Seq::<char>::empty());
    let whole = seq!['\x1b', '['] + params;
    assert(whole.drop_first().drop_first() == params);
    assert(ansi::visible(whole) == ansi::visible(ansi::after_csi(params)));
    assert(ansi::visible(Seq::<char>::empty()) == Seq::<char>::empty());
}

/// An operating system command is closed by the first bell, or by the first backslash directly
/// behind an escape, and by nothing before them: what follows is shown as if it stood alone.
pub proof fn law_osc_is_closed_by_bell_or_terminator(payload: Seq<char>, s: Seq<char>)
    requires
        forall|i: int| 0 <= i < payload.len() ==> #[trigger] payload[i] != '\x07',
        forall|i: int|
            1 <= i < payload.len() ==> !(#[trigger] payload[i] == '\\' && payload[i - 1] == '\x1b'),
    ensures
        ansi::visible(seq!['\x1b', ']'] + payload + seq!['\x07'] + s) == ansi::visible(s),
        ansi::after_osc(payload + seq!['\x07'] + s) == s,
        ansi::visible(seq!['\x1b', ']'] + payload + seq!['\x1b', '\\'] + s) == ansi::visible(s),
        ansi::after_osc(payload + seq!['\x1b', '\\'] + s) == s,
{
    let ends = |t: Seq<char>, i: int| ansi::osc_ends_at(t, i);
    let n = payload.len() as int;
    let bell = payload + seq!['\x07'] + s;
    assert forall|i: int| 0 <= i < n implies !#[trigger] ends(bell, i) by {
        assert(bell[i] == payload[i]);
        if i > 0 {
            assert(bell[i - 1] == payload[i - 1]);
        }
    }
    assert(bell[n] == '\x07');
    assert(ends(bell, n));
    lemma_end_found(bell, ends, 0, n);
    assert(bell.skip(n + 1) == s);
    let with_bell = seq!['\x1b', ']'] + payload + seq!['\x07'] + s;
    assert(with_bell.drop_first().drop_first() == bell);

    let st = payload + seq!['\x1b', '\\'] + s;
    assert(st[n] == '\x1b' && st[n + 1] == '\\');
    assert forall|i: int| 0 <= i < n + 1 implies !#[trigger] ends(st, i) by {
        if i < n {
            assert(st[i] == payload[i]);
            if i > 0 {
                assert(st[i - 1] == payload[i - 1]);
            }
        }
    }
    assert(ends(st, n + 1));
    lemma_end_found(st, ends, 0, n + 1);
    assert(st.skip(n + 2) == s);
    let with_st = seq!['\x1b', ']'] + payload + seq!['\x1b', '\\'] + s;
    assert(with_st.drop_first().drop_first() == st);
}

/// Nothing else closes an operating system command: without a bell, and without a backslash
/// directly behind an escape, nothing more is shown.
pub proof fn law_osc_is_closed_by_nothing_else(payload: Seq<char>)
    requires
        forall|i: int| 0 <= i < payload.len() ==> #[trigger] payload[i] != '\x07',
        forall|i: int|
            1 <= i < payload.len() ==> !(#[trigger] payload[i] == '\\' && payload[i - 1] == '\x1b'),
    ensures
        ansi::visible(seq!['\x1b', ']'] + payload) == Seq::<char>::empty(),
        ansi::after_osc(payload) == Seq::<char>::empty(),
{
    let ends = |t: Seq<char>, i: int| ansi::osc_ends_at(t, i);
    assert forall|i: int| 0 <= i < payload.len() implies !#[trigger] ends(payload, i) by {
        assert(payload[i] != '\x07');
    }
    lemma_end_missing(payload, ends, 0);
    assert(ansi::after_osc(payload) == Seq::<char>::empty());
    let whole = seq!['\x1b', ']'] + payload;
    assert(whole.drop_first().drop_first() == payload);
    assert(ansi::visible(whole) == ansi::visible(ansi::after_osc(payload)));
    assert(ansi::visible(Seq::<char>::empty()) == Seq::<char>::empty());
}

/// An escape takes one more character with it that is neither kind of bracket, and the rest is
/// shown as if it stood alone; a lone escape shows nothing; behind the brackets stands a control
/// sequence and an operating system command.
pub proof fn law_other_escapes_take_one_character(c: char, s: Seq<char>)
    ensures
        ansi::visible(seq!['\x1b']) == Seq::<char>::empty(),
        ansi::after_escape(seq![]) == Seq::<char>::empty(),
        c != '[' && c != ']' ==> {
            &&& ansi::visible(seq!['\x1b', c] + s) == ansi::visible(s)
            &&& ansi::after_escape(seq![c] + s) == s
        },
        ansi::after_escape(seq!['['] + s) == ansi::after_csi(s),
        ansi::after_escape(seq![']'] + s) == ansi::after_osc(s),
{
    assert(seq!['\x1b'].drop_first() == Seq::<char>::empty());
    assert(ansi::visible(Seq::<char>::empty()) == Seq::<char>::empty());
    assert((seq!['\x1b', c] + s).drop_first() == seq![c] + s);
    assert((seq![c] + s).drop_first() == s);
    assert((seq!['['] + s).drop_first() == s);
    assert((seq![']'] + s).drop_first() == s);
}

/// Text that goes on with a stream is shown as if what opened the sequence stood before it.
pub proof fn law_streams_go_on(s: Seq<char>)
    ensures
        ansi::visible_from(Scan::Outside, s) == ansi::visible(s),
        ansi::visible_from(Scan::AfterEscape, s) == ansi::visible(seq!['\x1b'] + s),
        ansi::visible_from(Scan::InCsi, s) == ansi::visible(seq!['\x1b', '['] + s),
        ansi::visible_from(Scan::InOsc, s) == ansi::visible(seq!['\x1b', ']'] + s),
        ansi::visible_from(Scan::InOscAfterEscape, s) == ansi::visible(
            seq!['\x1b', ']', '\x1b'] + s,
        ),
{
    law_open_sequence_goes_on(Scan::AfterEscape, s);
    law_open_sequence_goes_on(Scan::InCsi, s);
    law_open_sequence_goes_on(Scan::InOsc, s);
    law_open_sequence_goes_on(Scan::InOscAfterEscape, s);
}

/// A stream is left where its last open sequence leaves it: `scan_after` tells `b` what `a` has
/// opened, so that the two are shown apart as they are shown together, and an empty text leaves it
/// where it stood.
pub proof fn law_streams_remember_what_is_open(a: Seq<char>, b: Seq<char>)
    ensures
        ansi::visible(a + b) == ansi::visible(a) + ansi::visible_from(
            ansi::scan_after(Scan::Outside, a),
            b,
        ),
        forall|scan: Scan| #[trigger] ansi::scan_after(scan, seq![]) == scan,
{
    law_pieces_show_what_the_whole_shows(Scan::Outside, a, b);
}

/// No escape and no carriage return is ever shown.
pub proof fn law_no_escape_is_shown(s: Seq<char>)
    ensures
        !ansi::visible(s).contains('\x1b'),
        !ansi::visible(s).contains('\r'),
{
    law_visible_is_clean(s);
}

} // verus!
