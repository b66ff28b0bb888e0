//! Session identifiers.

use vstd::prelude::*;

verus! {

/// The part of the clock's milliseconds that goes into an identifier.
pub const RANDOM_ID_MASK: u128 = 0xFFFF_FFFF;

/// The number of distinct identifiers.
pub open spec fn id_count() -> int {
    0x1_0000_0000
}

/// The lower-case hexadecimal digit of value `d`.
pub open spec fn hex_digit(d: int) -> char {
    if d < 10 {
        (('0' as int) + d) as char
    } else {
        (('a' as int) + d - 10) as char
    }
}

/// `n` in lower-case hexadecimal, without leading zeros.
pub open spec fn hex_text(n: nat) -> Seq<char>
    decreases n,
{
    if n < 16 {
        seq![hex_digit(n as int)]
    } else {
        hex_text(n / 16).push(hex_digit((n % 16) as int))
    }
}

/// The identifier that belongs to a clock reading.
pub open spec fn id_text(millis: int) -> Seq<char> {
    hex_text((millis % id_count()) as nat)
}

/// The session identifier that belongs to a clock reading.
pub open spec fn session_id_text(millis: int) -> Seq<char> {
    "pty-"@ + id_text(millis)
}

fn hex_digit_of(d: u32) -> (c: char)
    requires
        d < 16,
    ensures
        c == hex_digit(d as int),
{
    match d {
        0 => '0',
        1 => '1',
        2 => '2',
        3 => '3',
        4 => '4',
        5 => '5',
        6 => '6',
        7 => '7',
        8 => '8',
        9 => '9',
        10 => 'a',
        11 => 'b',
        12 => 'c',
        13 => 'd',
        14 => 'e',
        _ => 'f',
    }
}

/// Puts `n` in hexadecimal behind `out`.
fn push_hex(n: u32, out: &mut String)
    ensures
        final(out)@ == old(out)@ + hex_text(n as nat),
    decreases n,
{
    if n >= 16 {
        push_hex(n / 16, out);
    }
    out.push(hex_digit_of(n % 16));
    assert(out@ == old(out)@ + hex_text(n as nat));
}

/// The identifier that belongs to the clock reading `millis`.
pub fn id_from_millis(millis: u128) -> (id: String)
    ensures
        id@ == id_text(millis as int),
        id@ == hex_text(millis as nat % 0x1_0000_0000),
{
    let masked: u128 = millis & RANDOM_ID_MASK;
    assert(millis & 0xFFFF_FFFFu128 == millis % 0x1_0000_0000u128) by (bit_vector);
    let mut id = String::new();
    push_hex(masked as u32, &mut id);
    assert(id@ == Seq::<char>::empty() + hex_text(masked as nat));
    id
}

/// The session identifier with the given distinguishing part.
pub fn session_id(token: &str) -> (id: String)
    ensures
        id@ == "pty-"@ + token@,
{
    let mut id = "pty-".to_string();
    id.append(token);
    id
}

/// The milliseconds since the Unix epoch, or `None` where the clock stands before it.
///
/// Reads the clock with `SystemTime::elapsed` on `UNIX_EPOCH`. Nothing is stated of the result:
/// it is whatever the clock shows.
#[verifier::external_body]
pub(crate) fn millis_since_epoch() -> (millis: Option<u128>) {
    match std::time::UNIX_EPOCH.elapsed() {
        Ok(elapsed) => Some(elapsed.as_millis()),
        Err(_) => None,
    }
}

/// The clock reading that an identifier is made from: a clock before the epoch counts as zero.
pub fn id_millis(reading: Option<u128>) -> (millis: u128)
    ensures
        millis == (match reading {
            Some(m) => m,
            None => 0,
        }),
{
    reading.unwrap_or(0)
}

/// Whether the clock has given this reading to a call that asked for one.
pub closed spec fn clock_showed(reading: Option<u128>) -> bool {
    call_ensures(millis_since_epoch, (), reading)
}

/// The clock has given the readings that [`millis_since_epoch`] returned, and no others.
pub(crate) proof fn law_clock_readings_are_read(reading: Option<u128>)
    ensures
        clock_showed(reading) <==> call_ensures(millis_since_epoch, (), reading),
{
}

/// An identifier made from the current time: from the reading that the clock gave to this call.
pub fn rand_id() -> (id: String)
    ensures
        exists|millis: u128| id@ == #[trigger] id_text(millis as int),
        exists|reading: Option<u128>| #[trigger]
            clock_showed(reading) && id@ == hex_text(
                match reading {
                    Some(millis) => millis as nat % 0x1_0000_0000,
                    None => 0,
                },
            ),
{
    let reading = millis_since_epoch();
    assert(clock_showed(reading));
    let millis = id_millis(reading);
    id_from_millis(millis)
}

/// A session identifier made from the current time: from the reading that the clock gave to this
/// call.
pub fn new_session_id() -> (id: String)
    ensures
        exists|millis: u128| id@ == #[trigger] session_id_text(millis as int),
        exists|reading: Option<u128>| #[trigger]
            clock_showed(reading) && id@ == "pty-"@ + hex_text(
                match reading {
                    Some(millis) => millis as nat % 0x1_0000_0000,
                    None => 0,
                },
            ),
{
    let token = rand_id();
    let id = session_id(token.as_str());
    proof {
        let millis = choose|millis: u128| token@ == #[trigger] id_text(millis as int);
        assert(id@ == session_id_text(millis as int));
    }
    id
}

/// Whether `c` is a lower-case hexadecimal digit.
pub open spec fn is_hex_digit(c: char) -> bool {
    ('0' <= c && c <= '9') || ('a' <= c && c <= 'f')
}

proof fn lemma_hex_shape(n: nat, digits: nat)
    requires
        digits >= 1,
        n < vstd::arithmetic::power::pow(16, digits),
    ensures
        1 <= hex_text(n).len() <= digits,
        forall|i: int| 0 <= i < hex_text(n).len() ==> is_hex_digit(#[trigger] hex_text(n)[i]),
        hex_text(n)[0] == '0' ==> n == 0,
    decreases n,
{
    reveal_with_fuel(vstd::arithmetic::power::pow, 2);
    if n >= 16 {
        let head = hex_text(n / 16);
        assert(vstd::arithmetic::power::pow(16, digits) == 16 * vstd::arithmetic::power::pow(
            16,
            (digits - 1) as nat,
        ));
        assert(digits > 1);
        lemma_hex_shape(n / 16, (digits - 1) as nat);
        assert forall|i: int| 0 <= i < hex_text(n).len() implies is_hex_digit(
            #[trigger] hex_text(n)[i],
        ) by {
            if i < head.len() {
                assert(hex_text(n)[i] == head[i]);
            }
        }
    }
}

proof fn lemma_hex_digit_injective(a: int, b: int)
    requires
        0 <= a < 16,
        0 <= b < 16,
        hex_digit(a) == hex_digit(b),
    ensures
        a == b,
{
    assert(hex_digit(a) as int == if a < 10 { 0x30 + a } else { 0x57 + a });
    assert(hex_digit(b) as int == if b < 10 { 0x30 + b } else { 0x57 + b });
}

proof fn lemma_hex_injective(m: nat, n: nat)
    requires
        hex_text(m) == hex_text(n),
    ensures
        m == n,
    decreases m,
{
    lemma_hex_len(m);
    lemma_hex_len(n);
    assert(hex_text(m).last() == hex_digit((m % 16) as int));
    assert(hex_text(n).last() == hex_digit((n % 16) as int));
    lemma_hex_digit_injective((m % 16) as int, (n % 16) as int);
    if m >= 16 {
        assert(hex_text(m / 16) == hex_text(m).drop_last());
        assert(hex_text(n / 16) == hex_text(n).drop_last());
        lemma_hex_injective(m / 16, n / 16);
    }
}

proof fn lemma_hex_len(n: nat)
    ensures
        hex_text(n).len() >= 1,
        hex_text(n).len() == 1 <==> n < 16,
    decreases n,
{
    if n >= 16 {
        lemma_hex_len(n / 16);
    }
}

/// An identifier has one to eight lower-case hexadecimal digits and no leading zero.
pub proof fn law_id_shape(millis: int)
    ensures
        1 <= id_text(millis).len() <= 8,
        forall|i: int| 0 <= i < id_text(millis).len() ==> is_hex_digit(#[trigger] id_text(millis)[i]),
        id_text(millis)[0] == '0' ==> id_text(millis).len() == 1,
{
    let n = (millis % id_count()) as nat;
    assert(vstd::arithmetic::power::pow(16, 8) == 0x1_0000_0000) by {
        reveal_with_fuel(vstd::arithmetic::power::pow, 9);
    }
    lemma_hex_shape(n, 8);
    lemma_hex_len(n);
}

/// Two clock readings give the same session identifier exactly when they differ by a multiple of
/// the number of identifiers.
pub proof fn law_session_ids_differ(a: int, b: int)
    ensures
        session_id_text(a) == session_id_text(b) <==> a % id_count() == b % id_count(),
{
    if session_id_text(a) == session_id_text(b) {
        let n = "pty-"@.len() as int;
        assert(id_text(a) == session_id_text(a).skip(n));
        assert(id_text(b) == session_id_text(b).skip(n));
        lemma_hex_injective((a % id_count()) as nat, (b % id_count()) as nat);
    }
}

/// The digits of numbers below sixteen are these sixteen characters, in this order.
pub proof fn law_hex_digits(n: nat)
    requires
        n < 16,
    ensures
        hex_text(n) == seq!["0123456789abcdef"@[n as int]],
{
    reveal_strlit("0123456789abcdef");
    let digits = "0123456789abcdef"@;
    assert(digits[0] == '0' && digits[1] == '1' && digits[2] == '2' && digits[3] == '3');
    assert(digits[4] == '4' && digits[5] == '5' && digits[6] == '6' && digits[7] == '7');
    assert(digits[8] == '8' && digits[9] == '9' && digits[10] == 'a' && digits[11] == 'b');
    assert(digits[12] == 'c' && digits[13] == 'd' && digits[14] == 'e' && digits[15] == 'f');
    assert(hex_digit(n as int) == digits[n as int]);
}

/// To put a digit behind a number multiplies it by sixteen and adds the digit.
pub proof fn law_hex_is_positional(n: nat, digit: nat)
    requires
        n > 0,
        digit < 16,
    ensures
        hex_text(16 * n + digit) == hex_text(n) + hex_text(digit),
{
    let m = 16 * n + digit;
    assert(m / 16 == n);
    assert(m % 16 == digit);
}

/// The identifier of a clock reading is made of its low thirty-two bits alone.
pub proof fn law_id_is_low_bits(millis: int)
    ensures
        0 <= millis < 0x1_0000_0000 ==> id_text(millis) == hex_text(millis as nat),
        id_text(millis + 0x1_0000_0000) == id_text(millis),
        session_id_text(millis) == "pty-"@ + id_text(millis),
{
}

/// Two clock readings give the same identifier exactly when their low thirty-two bits are the same.
pub proof fn law_ids_tell_readings_apart(a: int, b: int)
    ensures
        session_id_text(a) == session_id_text(b) <==> a % 0x1_0000_0000 == b % 0x1_0000_0000,
{
    law_session_ids_differ(a, b);
}

/// Two identifiers that were given out are those of two readings of the clock, and differ where the
/// readings do in their low thirty-two bits.
pub proof fn law_given_ids_tell_readings_apart(a: String, b: String)
    requires
        call_ensures(new_session_id, (), a),
        call_ensures(new_session_id, (), b),
    ensures
        exists|at_a: Option<u128>, at_b: Option<u128>|
            #![trigger clock_showed(at_a), clock_showed(at_b)]
            {
                let millis_a = match at_a {
                    Some(millis) => millis as int,
                    None => 0,
                };
                let millis_b = match at_b {
                    Some(millis) => millis as int,
                    None => 0,
                };
                &&& clock_showed(at_a)
                &&& clock_showed(at_b)
                &&& a@ == b@ <==> millis_a % 0x1_0000_0000 == millis_b % 0x1_0000_0000
            },
{
    let at_a = choose|reading: Option<u128>| #[trigger]
        clock_showed(reading) && a@ == "pty-"@ + hex_text(
            match reading {
                Some(millis) => millis as nat % 0x1_0000_0000,
                None => 0,
            },
        );
    let at_b = choose|reading: Option<u128>| #[trigger]
        clock_showed(reading) && b@ == "pty-"@ + hex_text(
            match reading {
                Some(millis) => millis as nat % 0x1_0000_0000,
                None => 0,
            },
        );
    let millis_a = match at_a {
        Some(millis) => millis as int,
        None => 0,
    };
    let millis_b = match at_b {
        Some(millis) => millis as int,
        None => 0,
    };
    assert(a@ == session_id_text(millis_a));
    assert(b@ == session_id_text(millis_b));
    law_ids_tell_readings_apart(millis_a, millis_b);
}

} // verus!
