//! What holds of the tools taken together.

use vstd::prelude::*;
use vstd::utf8::*;

use crate::ansi;
use crate::ansi_laws;
use crate::buffer;
use crate::buffer::{OutputBuffer, ReadOutcome};
use crate::ident;
use crate::service;
use crate::text;

verus! {

/// A started session is found under its identifier, and every other session stays as it was.
pub proof fn law_started_session_is_found<S>(open: Map<Seq<char>, S>, id: Seq<char>, session: S)
    ensures
        service::refusal(service::after_start(open, id, session), id) is None,
        service::after_start(open, id, session)[id] == session,
        forall|other: Seq<char>|
            other != id ==> #[trigger] service::refusal(
                service::after_start(open, id, session),
                other,
            ) == service::refusal(open, other),
        forall|other: Seq<char>|
            other != id && open.contains_key(other) ==> #[trigger] service::after_start(
                open,
                id,
                session,
            )[other] == open[other],
{
}

/// Sessions that were started at different clock readings stand side by side, unless the readings
/// differ by a multiple of the number of identifiers.
pub proof fn law_sessions_of_different_times_coexist<S>(
    open: Map<Seq<char>, S>,
    millis_a: int,
    a: S,
    millis_b: int,
    b: S,
)
    requires
        millis_a % ident::id_count() != millis_b % ident::id_count(),
    ensures
        ({
            let id_a = ident::session_id_text(millis_a);
            let id_b = ident::session_id_text(millis_b);
            let both = service::after_start(service::after_start(open, id_a, a), id_b, b);
            &&& service::refusal(both, id_a) is None
            &&& service::refusal(both, id_b) is None
            &&& both[id_a] == a
            &&& both[id_b] == b
        }),
{
    ident::law_session_ids_differ(millis_a, millis_b);
}

/// A write opens and closes no session, and changes no session but its own.
pub proof fn law_write_touches_one_session<S>(open: Map<Seq<char>, S>, id: Seq<char>, changed: S)
    requires
        service::refusal(open, id) is None,
    ensures
        service::after_write(open, id, changed).dom() == open.dom(),
        forall|other: Seq<char>|
            other != id && open.contains_key(other) ==> #[trigger] service::after_write(
                open,
                id,
                changed,
            )[other] == open[other],
{
    assert(service::after_write(open, id, changed).dom() == open.dom());
}

/// A closed session is refused from then on, and every other session stays as it was.
pub proof fn law_closed_session_is_refused<S>(open: Map<Seq<char>, S>, id: Seq<char>)
    ensures
        service::refusal(service::after_close(open, id), id) == Some(service::not_found_text(id)),
        forall|other: Seq<char>|
            other != id ==> #[trigger] service::refusal(service::after_close(open, id), other)
                == service::refusal(open, other),
        forall|other: Seq<char>|
            other != id && open.contains_key(other) ==> #[trigger] service::after_close(
                open,
                id,
            )[other] == open[other],
{
}

/// A request to close a session that is not open changes nothing, and so does closing twice.
pub proof fn law_close_is_idempotent<S>(open: Map<Seq<char>, S>, id: Seq<char>)
    ensures
        service::refusal(open, id) is Some ==> service::after_close(open, id) == open,
        service::after_close(service::after_close(open, id), id) == service::after_close(open, id),
{
    if service::refusal(open, id) is Some {
        assert(service::after_close(open, id) == open);
    }
}

/// To close a session undoes its start, where its identifier was free.
pub proof fn law_close_undoes_start<S>(open: Map<Seq<char>, S>, id: Seq<char>, session: S)
    requires
        !open.contains_key(id),
    ensures
        service::after_close(service::after_start(open, id, session), id) == open,
{
    assert(service::after_close(service::after_start(open, id, session), id) == open);
}

/// A request that the server has dealt with, as far as it concerns the open sessions.
pub ghost enum Event<S> {
    /// A session was started under this identifier.
    Started(Seq<char>, S),
    /// A session could not be started.
    StartFailed,
    /// There was a request to write to this identifier, which leaves an open session like this.
    Write(Seq<char>, S),
    /// There was a request to read from this identifier.
    Read(Seq<char>),
    /// There was a request to close this identifier.
    Close(Seq<char>),
}

/// The open sessions after an event.
pub open spec fn after_event<S>(open: Map<Seq<char>, S>, event: Event<S>) -> Map<Seq<char>, S> {
    match event {
        Event::Started(id, session) => service::after_start(open, id, session),
        Event::StartFailed => open,
        Event::Write(id, changed) => match service::refusal(open, id) {
            None => service::after_write(open, id, changed),
            Some(_) => open,
        },
        Event::Read(_) => open,
        Event::Close(id) => service::after_close(open, id),
    }
}

/// The open sessions after one event after the other.
pub open spec fn after_events<S>(open: Map<Seq<char>, S>, events: Seq<Event<S>>) -> Map<
    Seq<char>,
    S,
>
    decreases events.len(),
{
    if events.len() == 0 {
        open
    } else {
        after_events(after_event(open, events[0]), events.drop_first())
    }
}

/// Whether an event is a request to close `id`.
pub open spec fn closes<S>(event: Event<S>, id: Seq<char>) -> bool {
    event matches Event::Close(other) && other == id
}

/// Whether an event is a start under `id`.
pub open spec fn starts<S>(event: Event<S>, id: Seq<char>) -> bool {
    event matches Event::Started(other, _) && other == id
}

/// Whether an event is a write to `id`.
pub open spec fn writes<S>(event: Event<S>, id: Seq<char>) -> bool {
    event matches Event::Write(other, _) && other == id
}

/// An open session stays open, whatever happens, until it is closed. It also stays the same, but
/// for what is written to it and for a start under its own identifier.
pub proof fn law_open_until_closed<S>(
    open: Map<Seq<char>, S>,
    id: Seq<char>,
    events: Seq<Event<S>>,
)
    requires
        service::refusal(open, id) is None,
        forall|i: int| 0 <= i < events.len() ==> !closes(#[trigger] events[i], id),
    ensures
        service::refusal(after_events(open, events), id) is None,
        (forall|i: int|
            0 <= i < events.len() ==> !starts(#[trigger] events[i], id) && !writes(events[i], id))
            ==> after_events(open, events)[id] == open[id],
    decreases events.len(),
{
    if events.len() > 0 {
        let rest = events.drop_first();
        assert(!closes(events[0], id));
        assert forall|i: int| 0 <= i < rest.len() implies !closes(#[trigger] rest[i], id) by {
            assert(!closes(events[i + 1], id));
        }
        law_open_until_closed(after_event(open, events[0]), id, rest);
        if forall|i: int|
            0 <= i < events.len() ==> !starts(#[trigger] events[i], id) && !writes(events[i], id) {
            assert(!starts(events[0], id) && !writes(events[0], id));
            assert forall|i: int| 0 <= i < rest.len() implies !starts(#[trigger] rest[i], id)
                && !writes(rest[i], id) by {
                assert(!starts(events[i + 1], id));
            }
        }
    }
}

/// An identifier under which no session is open is refused, whatever happens, until a session is
/// started under it.
pub proof fn law_refused_until_started<S>(
    open: Map<Seq<char>, S>,
    id: Seq<char>,
    events: Seq<Event<S>>,
)
    requires
        service::refusal(open, id) is Some,
        forall|i: int| 0 <= i < events.len() ==> !starts(#[trigger] events[i], id),
    ensures
        service::refusal(after_events(open, events), id) == Some(service::not_found_text(id)),
    decreases events.len(),
{
    if events.len() > 0 {
        let rest = events.drop_first();
        assert(!starts(events[0], id));
        assert forall|i: int| 0 <= i < rest.len() implies !starts(#[trigger] rest[i], id) by {
            assert(!starts(events[i + 1], id));
        }
        law_refused_until_started(after_event(open, events[0]), id, rest);
    }
}

/// A started session can be closed, whatever happened since but a request to close it, and every
/// later request for it is refused, whatever happened since but a start under its identifier.
pub proof fn law_session_lifecycle<S>(
    open: Map<Seq<char>, S>,
    id: Seq<char>,
    session: S,
    during: Seq<Event<S>>,
    later: Seq<Event<S>>,
)
    requires
        forall|i: int| 0 <= i < during.len() ==> !closes(#[trigger] during[i], id),
        forall|i: int| 0 <= i < later.len() ==> !starts(#[trigger] later[i], id),
    ensures
        ({
            let running = after_events(service::after_start(open, id, session), during);
            let closed = service::after_close(running, id);
            let ended = after_events(closed, later);
            &&& service::refusal(running, id) is None
            &&& service::close_text(running, id) == service::closed_text(id)
            &&& service::close_text(running, id) == "Session '"@ + id + "' closed"@
            &&& !closed.contains_key(id)
            &&& service::refusal(ended, id) == Some(service::not_found_text(id))
            &&& service::refusal(ended, id) == Some("Error: session '"@ + id + "' not found"@)
            &&& service::close_text(ended, id) == service::not_found_text(id)
        }),
{
    let running = after_events(service::after_start(open, id, session), during);
    law_open_until_closed(service::after_start(open, id, session), id, during);
    law_refused_until_started(service::after_close(running, id), id, later);
}

/// What is sent to a session decodes to exactly the input that the client gave.
pub proof fn law_input_is_sent_verbatim(input: Seq<char>)
    ensures
        valid_utf8(encode_utf8(input)),
        decode_utf8(encode_utf8(input)) == input,
{
    encode_utf8_valid_utf8(input);
    encode_utf8_decode_utf8(input);
}

/// A read shows all that a session's reader has collected since the last read, however the output
/// was cut into chunks.
pub proof fn law_read_shows_what_was_collected(
    before: OutputBuffer,
    attempts: Seq<(Seq<u8>, ReadOutcome)>,
    after: OutputBuffer,
)
    requires
        forall|i: int| 0 <= i < attempts.len() ==> buffer::goes_on((#[trigger] attempts[i]).1),
        after.scan == before.scan,
        after.bytes@ == buffer::reader_run(before.bytes@, attempts),
    ensures
        service::read_text(after.shows()) == service::read_text(
            ansi::visible_from(
                before.scan,
                text::utf8_lossy(before.bytes@ + buffer::chunks_of(attempts)),
            ),
        ),
{
    buffer::law_reader_collects_until_end(
        before.bytes@,
        attempts,
        (Seq::empty(), ReadOutcome::Failed),
        Seq::empty(),
    );
}

/// Output without escapes and carriage returns reaches the client as it is, by a read and by a
/// write.
pub proof fn law_plain_output_is_shown_verbatim(output: Seq<char>)
    requires
        output.len() > 0,
        forall|i: int| 0 <= i < output.len() ==> ansi_laws::is_plain(#[trigger] output[i]),
    ensures
        service::read_text(ansi::visible(output)) == output,
        service::written_text(ansi::visible(output)) == output,
{
    ansi_laws::law_plain_text_is_kept(output);
}

/// No request is answered with an empty text.
pub proof fn law_replies_are_never_empty(id: Seq<char>, given: Seq<char>)
    ensures
        service::not_found_text(id).len() > 0,
        service::start_error_text(given).len() > 0,
        service::started_text(id, given).len() > 0,
        service::write_error_text(given).len() > 0,
        service::written_text(given).len() > 0,
        service::read_text(given).len() > 0,
        service::closed_text(id).len() > 0,
{
    reveal_strlit("Error: session '");
    reveal_strlit("Error: ");
    reveal_strlit("Session started: ");
    reveal_strlit("Error: write failed: ");
    reveal_strlit("Written (no output yet — use pty_read to check later)");
    reveal_strlit("(no new output)");
    reveal_strlit("Session '");
}

/// A request for an identifier is refused exactly when no session is open under it, and the refusal
/// begins as an error, names the identifier between quotes and ends with what is wrong.
pub proof fn law_refusal_is_an_error_that_names_the_session<S>(
    open: Map<Seq<char>, S>,
    id: Seq<char>,
)
    ensures
        service::refusal(open, id) is Some <==> !open.contains_key(id),
        service::refusal(open, id) matches Some(reply) ==> {
            &&& reply.len() == 16 + id.len() + 11
            &&& reply.take(16) == "Error: session '"@
            &&& reply.subrange(16, 16 + id.len() as int) == id
            &&& reply.skip(16 + id.len() as int) == "' not found"@
        },
{
    reveal_strlit("Error: session '");
    reveal_strlit("' not found");
    let reply = service::not_found_text(id);
    assert(reply.take(16) =~= "Error: session '"@);
    assert(reply.subrange(16, 16 + id.len() as int) =~= id);
    assert(reply.skip(16 + id.len() as int) =~= "' not found"@);
}

/// The answer to a request to close an open session is no error: it begins with what it speaks of,
/// names the identifier between quotes and ends with what became of it.
pub proof fn law_close_of_open_session_is_reported<S>(open: Map<Seq<char>, S>, id: Seq<char>)
    requires
        open.contains_key(id),
    ensures
        ({
            let reply = service::close_text(open, id);
            &&& reply.len() == 9 + id.len() + 8
            &&& reply.take(9) == "Session '"@
            &&& reply.subrange(9, 9 + id.len() as int) == id
            &&& reply.skip(9 + id.len() as int) == "' closed"@
            &&& reply.take(7) != "Error: "@
        }),
        !service::after_close(open, id).contains_key(id),
{
    reveal_strlit("Session '");
    reveal_strlit("' closed");
    reveal_strlit("Error: ");
    let reply = service::close_text(open, id);
    assert(reply.take(9) =~= "Session '"@);
    assert(reply.subrange(9, 9 + id.len() as int) =~= id);
    assert(reply.skip(9 + id.len() as int) =~= "' closed"@);
    assert(reply.take(7)[0] == 'S');
}

/// Errors begin as errors and hand on the reason whole.
pub proof fn law_errors_hand_on_their_reason(reason: Seq<char>)
    ensures
        service::start_error_text(reason) == "Error: "@ + reason,
        service::write_error_text(reason) == "Error: write failed: "@ + reason,
{
}

/// A start is answered with the identifier, and with the output behind an empty line where there is
/// any; a write and a read are answered with the output itself, or told apart where there is none.
pub proof fn law_replies_hand_on_output(id: Seq<char>, output: Seq<char>)
    ensures
        output.len() > 0 ==> {
            &&& service::started_text(id, output) == "Session started: "@ + id + "\n\n"@ + output
            &&& service::written_text(output) == output
            &&& service::read_text(output) == output
        },
        output.len() == 0 ==> {
            &&& service::started_text(id, output) == "Session started: "@ + id
            &&& service::written_text(output)
                == "Written (no output yet — use pty_read to check later)"@
            &&& service::read_text(output) == "(no new output)"@
        },
{
}

/// A start adds one session or replaces the one under its identifier, a write changes the one that
/// it is for, a close takes one out; nothing else changes.
pub proof fn law_sessions_change_one_at_a_time<S>(
    open: Map<Seq<char>, S>,
    id: Seq<char>,
    session: S,
    other: Seq<char>,
)
    ensures
        service::after_start(open, id, session).contains_key(other) <==> other == id
            || open.contains_key(other),
        service::after_start(open, id, session)[id] == session,
        service::after_write(open, id, session)[id] == session,
        service::after_close(open, id).contains_key(other) <==> other != id && open.contains_key(
            other,
        ),
        other != id && open.contains_key(other) ==> {
            &&& service::after_start(open, id, session)[other] == open[other]
            &&& service::after_write(open, id, session)[other] == open[other]
            &&& service::after_close(open, id)[other] == open[other]
        },
{
}

/// A failed start and a refused close are told from successful ones by their first characters.
pub proof fn law_refusals_are_told_from_successes(
    id: Seq<char>,
    output: Seq<char>,
    reason: Seq<char>,
)
    ensures
        service::start_error_text(reason) != service::started_text(id, output),
        service::not_found_text(id) != service::closed_text(id),
{
    reveal_strlit("Error: session '");
    reveal_strlit("Error: ");
    reveal_strlit("Session started: ");
    reveal_strlit("Session '");
    assert(service::start_error_text(reason)[0] == 'E');
    assert(service::started_text(id, output)[0] == 'S');
    assert(service::not_found_text(id)[0] == 'E');
    assert(service::closed_text(id)[0] == 'S');
}

/// A refusal names the session that was asked for.
pub proof fn law_refusal_names_the_session(a: Seq<char>, b: Seq<char>)
    ensures
        service::not_found_text(a) == service::not_found_text(b) ==> a == b,
{
    let n = "Error: session '"@.len() as int;
    let whole_a = service::not_found_text(a);
    let whole_b = service::not_found_text(b);
    if whole_a == whole_b {
        assert(whole_a.len() == n + a.len() + "' not found"@.len());
        assert(whole_b.len() == n + b.len() + "' not found"@.len());
        assert(whole_a.subrange(n, n + a.len()) == a);
        assert(whole_b.subrange(n, n + b.len()) == b);
    }
}

/// The answer to a start tells the session's identifier and its first output: two answers are the
/// same only if both are.
pub proof fn law_started_reply_tells_session_and_output(
    millis_a: int,
    output_a: Seq<char>,
    millis_b: int,
    output_b: Seq<char>,
)
    requires
        service::started_text(ident::session_id_text(millis_a), output_a) == service::started_text(
            ident::session_id_text(millis_b),
            output_b,
        ),
    ensures
        ident::session_id_text(millis_a) == ident::session_id_text(millis_b),
        output_a == output_b,
{
    let a = ident::session_id_text(millis_a);
    let b = ident::session_id_text(millis_b);
    lemma_id_has_no_newline(millis_a);
    lemma_id_has_no_newline(millis_b);
    if a.len() < b.len() {
        lemma_started_prefix(a, output_a, b, output_b);
    } else if b.len() < a.len() {
        lemma_started_prefix(b, output_b, a, output_a);
    }
    let whole = service::started_text(a, output_a);
    let n = "Session started: "@.len() as int;
    reveal_strlit("\n\n");
    assert(whole.subrange(n, n + a.len()) == a);
    assert(whole.subrange(n, n + b.len()) == b);
    if output_a.len() > 0 {
        assert(whole.skip(n + a.len() + 2) == output_a);
        assert(whole.skip(n + a.len() + 2) == output_b);
    } else {
        assert(output_a == output_b);
    }
}

/// The first line of the answer to a start is the announcement and the session's identifier.
pub proof fn law_started_reply_begins_with_session(millis: int, output: Seq<char>)
    ensures
        ({
            let id = ident::session_id_text(millis);
            let line = "Session started: "@ + id;
            let reply = service::started_text(id, output);
            &&& reply.len() >= line.len()
            &&& reply.take(line.len() as int) == line
            &&& !line.contains('\n')
            &&& reply.len() > line.len() ==> reply[line.len() as int] == '\n'
        }),
{
    let id = ident::session_id_text(millis);
    let line = "Session started: "@ + id;
    let reply = service::started_text(id, output);
    reveal_strlit("Session started: ");
    reveal_strlit("\n\n");
    lemma_id_has_no_newline(millis);
    let n = "Session started: "@.len() as int;
    assert forall|i: int| 0 <= i < line.len() implies line[i] != '\n' by {
        if i >= n {
            assert(line[i] == id[i - n]);
        }
    }
    assert(reply.take(line.len() as int) == line);
}

proof fn lemma_id_has_no_newline(millis: int)
    ensures
        forall|i: int|
            0 <= i < ident::session_id_text(millis).len() ==> #[trigger] ident::session_id_text(
                millis,
            )[i] != '\n',
{
    reveal_strlit("pty-");
    ident::law_id_shape(millis);
    let id = ident::id_text(millis);
    assert forall|i: int| 0 <= i < ident::session_id_text(millis).len() implies
        #[trigger] ident::session_id_text(millis)[i] != '\n' by {
        if i >= 4 {
            assert(ident::session_id_text(millis)[i] == id[i - 4]);
            assert(ident::is_hex_digit(id[i - 4]));
        }
    }
}

/// Two answers to a start differ where one identifier is longer than the other.
proof fn lemma_started_prefix(
    short: Seq<char>,
    short_output: Seq<char>,
    long: Seq<char>,
    long_output: Seq<char>,
)
    requires
        short.len() < long.len(),
        forall|i: int| 0 <= i < long.len() ==> #[trigger] long[i] != '\n',
    ensures
        service::started_text(short, short_output) != service::started_text(long, long_output),
{
    reveal_strlit("\n\n");
    let n = "Session started: "@.len() as int;
    let s = service::started_text(short, short_output);
    let l = service::started_text(long, long_output);
    assert(l[n + short.len()] == long[short.len() as int]);
    if short_output.len() > 0 {
        assert(s[n + short.len()] == '\n');
    } else {
        assert(s.len() < l.len());
    }
}

} // verus!
