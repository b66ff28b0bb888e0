//! The output that a session has produced and no client has seen yet.

use vstd::prelude::*;
use vstd::slice::slice_subrange;
use vstd::utf8::*;

use crate::ansi;
use crate::ansi::Scan;
use crate::ansi_laws;
use crate::text;

verus! {

/// The bytes that are waiting to be read, and where those that were read have left the text: a
/// control sequence of which a part has been read is not shown when its rest is.
#[derive(Debug)]
pub struct OutputBuffer {
    pub bytes: Vec<u8>,
    pub scan: Scan,
}

impl OutputBuffer {
    /// A buffer of which nothing has been read and in which nothing is waiting.
    pub fn new() -> (buffer: OutputBuffer)
        ensures
            buffer.bytes@ == Seq::<u8>::empty(),
            buffer.scan is Outside,
    {
        OutputBuffer { bytes: Vec::new(), scan: Scan::Outside }
    }

    /// The text that is waiting, as `String::from_utf8_lossy` decodes it.
    pub open spec fn waiting(self) -> Seq<char> {
        text::utf8_lossy(self.bytes@)
    }

    /// What a client sees of the text that is waiting.
    pub open spec fn shows(self) -> Seq<char> {
        ansi::visible_from(self.scan, self.waiting())
    }

    /// What a client sees of the text that is waiting, where it is valid UTF-8.
    pub open spec fn shows_decoded(self) -> Seq<char> {
        ansi::visible_from(self.scan, decode_utf8(self.bytes@))
    }

    /// Whether `after` is this buffer once all that is waiting has been decoded and read.
    pub open spec fn drains_to(self, after: OutputBuffer) -> bool {
        &&& text::decodes_to(self.bytes@, self.waiting())
        &&& after.bytes@ == Seq::<u8>::empty()
        &&& after.scan == ansi::scan_after(self.scan, self.waiting())
    }
}

/// How many bytes the reader asks a terminal for at a time.
pub const READ_BLOCK: usize = 16_384;

/// What came of an attempt to read a block from a terminal.
#[derive(Clone, Copy, Debug, PartialEq, Eq, Structural)]
pub enum ReadOutcome {
    /// So many bytes were placed at the front of the block; none at the end of the output.
    Read(usize),
    /// A signal interrupted the attempt.
    Interrupted,
    /// The attempt failed in another way.
    Failed,
}

/// Whether the reader is to try again.
#[derive(Clone, Copy, Debug, PartialEq, Eq, Structural)]
pub enum ReaderNext {
    Continue,
    Stop,
}

/// The bytes that an attempt obtained.
pub open spec fn chunk_of(block: Seq<u8>, outcome: ReadOutcome) -> Seq<u8> {
    match outcome {
        ReadOutcome::Read(n) => block.take(n as int),
        _ => seq![],
    }
}

/// Whether more output may follow after an attempt.
pub open spec fn goes_on(outcome: ReadOutcome) -> bool {
    match outcome {
        ReadOutcome::Read(n) => n > 0,
        ReadOutcome::Interrupted => true,
        ReadOutcome::Failed => false,
    }
}

/// Puts `chunk` behind the bytes that are waiting.
pub fn append_output_chunk(buffer: &mut OutputBuffer, chunk: &[u8])
    ensures
        final(buffer).bytes@ == old(buffer).bytes@ + chunk@,
        final(buffer).scan == old(buffer).scan,
{
    buffer.bytes.extend_from_slice(chunk);
    assert(buffer.bytes@ == old(buffer).bytes@ + chunk@);
}

/// Takes all waiting bytes and returns what a client sees of them.
///
/// A control sequence that began in bytes taken earlier is not shown, and one that does not end in
/// these is remembered.
pub fn drain_buffer(buffer: &mut OutputBuffer) -> (output: String)
    ensures
        old(buffer).drains_to(*final(buffer)),
        output@ == old(buffer).shows(),
        valid_utf8(old(buffer).bytes@) ==> output@ == old(buffer).shows_decoded(),
        final(buffer).bytes@ == Seq::<u8>::empty(),
        final(buffer).scan == ansi::scan_after(
            old(buffer).scan,
            text::utf8_lossy(old(buffer).bytes@),
        ),
        output@ == ansi::visible_from(old(buffer).scan, text::utf8_lossy(old(buffer).bytes@)),
        valid_utf8(old(buffer).bytes@) ==> output@ == ansi::visible_from(
            old(buffer).scan,
            decode_utf8(old(buffer).bytes@),
        ),
        forall|i: int| 0 <= i < output@.len() ==> ansi_laws::is_plain(#[trigger] output@[i]),
        !output@.contains('\x1b') && !output@.contains('\r'),
        old(buffer).bytes@.len() == 0 ==> output@ == Seq::<char>::empty() && final(buffer).scan
            == old(buffer).scan,
{
    let mut bytes: Vec<u8> = Vec::new();
    std::mem::swap(&mut bytes, &mut buffer.bytes);
    let (output, scan) = ansi::strip_ansi_from(buffer.scan, bytes.as_slice());
    proof {
        if bytes@.len() == 0 {
            assert(decode_utf8(bytes@) == Seq::<char>::empty());
            ansi::lemma_nothing_after_nothing(buffer.scan, decode_utf8(bytes@));
        }
    }
    buffer.scan = scan;
    output
}

/// Handles one attempt of the reader: keeps what it obtained and says whether to try again.
///
/// The reader stops at the end of the output and at a failure; an interruption is no failure.
pub fn reader_step(buffer: &mut OutputBuffer, block: &[u8], outcome: ReadOutcome) -> (next:
    ReaderNext)
    requires
        outcome matches ReadOutcome::Read(n) ==> n <= block@.len(),
    ensures
        final(buffer).bytes@ == old(buffer).bytes@ + chunk_of(block@, outcome),
        final(buffer).scan == old(buffer).scan,
        match outcome {
            ReadOutcome::Read(n) => {
                &&& final(buffer).bytes@ == old(buffer).bytes@ + block@.take(n as int)
                &&& next == (if n == 0 {
                    ReaderNext::Stop
                } else {
                    ReaderNext::Continue
                })
            },
            ReadOutcome::Interrupted => {
                &&& final(buffer).bytes@ == old(buffer).bytes@
                &&& next == ReaderNext::Continue
            },
            ReadOutcome::Failed => {
                &&& final(buffer).bytes@ == old(buffer).bytes@
                &&& next == ReaderNext::Stop
            },
        },
        next == (if goes_on(outcome) {
            ReaderNext::Continue
        } else {
            ReaderNext::Stop
        }),
{
    assert(buffer.bytes@ == buffer.bytes@ + Seq::<u8>::empty());
    match outcome {
        ReadOutcome::Read(n) => {
            if n == 0 {
                assert(block@.take(0) == Seq::<u8>::empty());
                ReaderNext::Stop
            } else {
                append_output_chunk(buffer, slice_subrange(block, 0, n));
                ReaderNext::Continue
            }
        },
        ReadOutcome::Interrupted => ReaderNext::Continue,
        ReadOutcome::Failed => ReaderNext::Stop,
    }
}

/// What a buffer holds after the reader has handled `attempts` one by one, each a block and its
/// outcome, up to the first at which it stops.
pub open spec fn reader_run(buffer: Seq<u8>, attempts: Seq<(Seq<u8>, ReadOutcome)>) -> Seq<u8>
    decreases attempts.len(),
{
    if attempts.len() == 0 {
        buffer
    } else {
        let kept = buffer + chunk_of(attempts[0].0, attempts[0].1);
        if goes_on(attempts[0].1) {
            reader_run(kept, attempts.drop_first())
        } else {
            kept
        }
    }
}

/// The chunks of `attempts`, one behind the other.
pub open spec fn chunks_of(attempts: Seq<(Seq<u8>, ReadOutcome)>) -> Seq<u8>
    decreases attempts.len(),
{
    if attempts.len() == 0 {
        seq![]
    } else {
        chunk_of(attempts[0].0, attempts[0].1) + chunks_of(attempts.drop_first())
    }
}

/// The reader collects, in order and without loss, every chunk up to the end of the output or the
/// first failure, and nothing after it.
pub proof fn law_reader_collects_until_end(
    buffer: Seq<u8>,
    going: Seq<(Seq<u8>, ReadOutcome)>,
    last: (Seq<u8>, ReadOutcome),
    later: Seq<(Seq<u8>, ReadOutcome)>,
)
    requires
        forall|i: int| 0 <= i < going.len() ==> goes_on((#[trigger] going[i]).1),
        !goes_on(last.1),
    ensures
        reader_run(buffer, going) == buffer + chunks_of(going),
        reader_run(buffer, going + seq![last] + later) == buffer + chunks_of(going),
    decreases going.len(),
{
    let all = going + seq![last] + later;
    if going.len() == 0 {
        assert(all[0] == last);
        assert(chunk_of(last.0, last.1) == Seq::<u8>::empty());
        assert(buffer + Seq::<u8>::empty() == buffer);
    } else {
        let rest = going.drop_first();
        let chunk = chunk_of(going[0].0, going[0].1);
        assert(all[0] == going[0]);
        assert(all.drop_first() == rest + seq![last] + later);
        assert forall|i: int| 0 <= i < rest.len() implies goes_on((#[trigger] rest[i]).1) by {
            assert(rest[i] == going[i + 1]);
        }
        law_reader_collects_until_end(buffer + chunk, rest, last, later);
        assert(buffer + chunk + chunks_of(rest) == buffer + (chunk + chunks_of(rest)));
    }
}

/// Every read of at least one byte is kept byte for byte and is followed by another attempt, and so
/// is an interruption; the reader stops at a read of nothing and at a failure, which give nothing.
pub proof fn law_reader_keeps_every_byte(block: Seq<u8>, n: usize)
    requires
        n <= block.len(),
    ensures
        chunk_of(block, ReadOutcome::Read(n)).len() == n,
        forall|i: int|
            0 <= i < n ==> #[trigger] chunk_of(block, ReadOutcome::Read(n))[i] == block[i],
        goes_on(ReadOutcome::Read(n)) <==> n != 0,
        chunk_of(block, ReadOutcome::Interrupted).len() == 0,
        goes_on(ReadOutcome::Interrupted),
        chunk_of(block, ReadOutcome::Failed).len() == 0,
        !goes_on(ReadOutcome::Failed),
{
}

/// After a read of at least one byte the reader holds what it held, then that chunk, and goes on;
/// an interruption changes nothing; after a read of nothing and after a failure nothing is added,
/// whatever would have come later.
pub proof fn law_reader_takes_one_attempt(
    held: Seq<u8>,
    block: Seq<u8>,
    n: usize,
    later: Seq<(Seq<u8>, ReadOutcome)>,
)
    requires
        n <= block.len(),
    ensures
        reader_run(held, seq![]) == held,
        n > 0 ==> reader_run(held, seq![(block, ReadOutcome::Read(n))] + later) == reader_run(
            held + block.take(n as int),
            later,
        ),
        reader_run(held, seq![(block, ReadOutcome::Interrupted)] + later) == reader_run(
            held,
            later,
        ),
        reader_run(held, seq![(block, ReadOutcome::Read(0))] + later) == held,
        reader_run(held, seq![(block, ReadOutcome::Failed)] + later) == held,
{
    assert(held + Seq::<u8>::empty() == held);
    assert(block.take(0) == Seq::<u8>::empty());
    assert((seq![(block, ReadOutcome::Read(n))] + later).drop_first() == later);
    assert((seq![(block, ReadOutcome::Interrupted)] + later).drop_first() == later);
}

/// What waits in a buffer is what `String::from_utf8_lossy` makes of its bytes, and what it shows is
/// what is visible of that behind what was read before.
pub proof fn law_buffer_shows_its_bytes(buffer: OutputBuffer)
    ensures
        buffer.shows() == ansi::visible_from(buffer.scan, text::utf8_lossy(buffer.bytes@)),
        buffer.shows_decoded() == ansi::visible_from(buffer.scan, decode_utf8(buffer.bytes@)),
        forall|after: OutputBuffer| #[trigger]
            buffer.drains_to(after) ==> after.bytes@.len() == 0 && after.scan == ansi::scan_after(
                buffer.scan,
                text::utf8_lossy(buffer.bytes@),
            ),
{
}

/// All that a client sees of `pieces`, read one by one from a stream that stands at `scan`.
pub open spec fn shown_piecewise(scan: Scan, pieces: Seq<Seq<char>>) -> Seq<char>
    decreases pieces.len(),
{
    if pieces.len() == 0 {
        seq![]
    } else {
        ansi::visible_from(scan, pieces[0]) + shown_piecewise(
            ansi::scan_after(scan, pieces[0]),
            pieces.drop_first(),
        )
    }
}

/// The `pieces`, one behind the other.
pub open spec fn joined(pieces: Seq<Seq<char>>) -> Seq<char>
    decreases pieces.len(),
{
    if pieces.len() == 0 {
        seq![]
    } else {
        pieces[0] + joined(pieces.drop_first())
    }
}

/// However the reads cut the output of a command into pieces, within control sequences too, they
/// show together what is visible of the whole, and so no part of a control sequence.
pub proof fn law_reads_show_what_the_whole_shows(scan: Scan, pieces: Seq<Seq<char>>)
    ensures
        shown_piecewise(scan, pieces) == ansi::visible_from(scan, joined(pieces)),
    decreases pieces.len(),
{
    if pieces.len() == 0 {
        ansi::lemma_nothing_after_nothing(scan, joined(pieces));
    } else {
        let rest = pieces.drop_first();
        law_reads_show_what_the_whole_shows(ansi::scan_after(scan, pieces[0]), rest);
        ansi_laws::law_pieces_show_what_the_whole_shows(scan, pieces[0], joined(rest));
    }
}

/// Two drains show what one drain of everything shows, and leave the buffer as it does, wherever
/// the first one fell between two characters.
pub proof fn law_two_drains_show_what_one_shows(
    before: OutputBuffer,
    between: OutputBuffer,
    after: OutputBuffer,
    end: OutputBuffer,
    whole: OutputBuffer,
    whole_end: OutputBuffer,
)
    requires
        valid_utf8(before.bytes@),
        before.drains_to(between),
        after.scan == between.scan,
        after.drains_to(end),
        whole.scan == before.scan,
        whole.bytes@ == before.bytes@ + after.bytes@,
        whole.drains_to(whole_end),
    ensures
        whole.shows() == before.shows() + after.shows(),
        whole_end.scan == end.scan,
{
    text::lemma_decodes_apart(before.bytes@, after.bytes@, whole.waiting());
    ansi_laws::law_pieces_show_what_the_whole_shows(
        before.scan,
        before.waiting(),
        after.waiting(),
    );
}

} // verus!
