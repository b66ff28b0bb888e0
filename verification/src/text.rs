//! Text as bytes and as characters.

use vstd::prelude::*;
use vstd::utf8::*;

verus! {

/// The text that `String::from_utf8_lossy` makes of `bytes`.
pub uninterp spec fn utf8_lossy(bytes: Seq<u8>) -> Seq<char>;

/// Whether the first `k` of `bytes` are valid UTF-8 by themselves.
pub open spec fn is_valid_front(bytes: Seq<u8>, k: int) -> bool {
    0 <= k <= bytes.len() && valid_utf8(bytes.take(k))
}

/// Decodes `bytes` with `String::from_utf8_lossy`.
///
/// Of that function it is taken on trust that its result depends on the bytes alone; that valid
/// UTF-8 is decoded as it stands; that anything else leaves at least one U+FFFD replacement
/// character in the result; that a valid front is decoded as it stands and the rest as if it stood
/// alone; and that every ASCII character of the result is one of the bytes, since nothing but the
/// replacement character is brought in.
#[verifier::external_body]
pub(crate) fn decode_lossy(bytes: &[u8]) -> (text: String)
    ensures
        text@ == utf8_lossy(bytes@),
        valid_utf8(bytes@) ==> text@ == decode_utf8(bytes@),
        !valid_utf8(bytes@) ==> text@.contains('\u{FFFD}'),
        forall|k: int| #[trigger]
            is_valid_front(bytes@, k) ==> text@ == decode_utf8(bytes@.take(k)) + utf8_lossy(
                bytes@.skip(k),
            ),
        forall|i: int|
            0 <= i < text@.len() && (#[trigger] text@[i] as int) < 0x80 ==> bytes@.contains(
                text@[i] as u8,
            ),
{
    String::from_utf8_lossy(bytes).into_owned()
}

/// Whether `text` is what `String::from_utf8_lossy` makes of `bytes`: valid UTF-8 and a valid front
/// are decoded as they stand, and no ASCII character is brought in.
pub open spec fn decodes_to(bytes: Seq<u8>, text: Seq<char>) -> bool {
    &&& text == utf8_lossy(bytes)
    &&& valid_utf8(bytes) ==> text == decode_utf8(bytes)
    &&& forall|k: int| #[trigger]
        is_valid_front(bytes, k) ==> text == decode_utf8(bytes.take(k)) + utf8_lossy(bytes.skip(k))
    &&& forall|i: int|
        0 <= i < text.len() && (#[trigger] text[i] as int) < 0x80 ==> bytes.contains(text[i] as u8)
}

/// Valid bytes are decoded apart from those that follow them.
pub proof fn lemma_decodes_apart(first: Seq<u8>, second: Seq<u8>, text: Seq<char>)
    requires
        valid_utf8(first),
        decodes_to(first + second, text),
    ensures
        text == decode_utf8(first) + utf8_lossy(second),
{
    let both = first + second;
    let k = first.len() as int;
    assert(both.take(k) == first);
    assert(both.skip(k) == second);
    assert(is_valid_front(both, k));
}

/// Two valid byte strings are valid one behind the other, and are decoded apart.
pub proof fn lemma_decode_concat(first: Seq<u8>, second: Seq<u8>)
    requires
        valid_utf8(first),
        valid_utf8(second),
    ensures
        valid_utf8(first + second),
        decode_utf8(first + second) == decode_utf8(first) + decode_utf8(second),
    decreases first.len(),
{
    let both = first + second;
    if first.len() == 0 {
        assert(both == second);
        assert(decode_utf8(first) + decode_utf8(second) == decode_utf8(second));
    } else {
        let rest = pop_first_scalar(first);
        lemma_decode_concat(rest, second);
        assert(pop_first_scalar(both) == rest + second);
        assert(decode_utf8(both) == seq![decode_first_scalar(both) as char] + decode_utf8(
            rest + second,
        ));
        assert(seq![decode_first_scalar(first) as char] + (decode_utf8(rest) + decode_utf8(second))
            == (seq![decode_first_scalar(first) as char] + decode_utf8(rest)) + decode_utf8(second));
    }
}

/// `String::push` puts the character behind those that the string holds.
pub assume_specification[ String::push ](s: &mut String, c: char)
    ensures
        final(s)@ == old(s)@.push(c),
;

/// `a` and `b`, one behind the other.
pub(crate) fn join(a: &str, b: &str) -> (text: String)
    ensures
        text@ == a@ + b@,
{
    let mut text = a.to_string();
    text.append(b);
    text
}

} // verus!
