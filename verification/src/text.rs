//! Scanning text for delimiter characters without copying it.
//!
//! Every delimiter of the request line is an ASCII character, so the scan
//! runs over the UTF-8 bytes of a string slice while the contracts speak of
//! its characters. The lemmas in this module carry facts from one to the
//! other.

use core::str::Utf8Error;
use vstd::prelude::*;
use vstd::string::*;
use vstd::utf8::*;

verus! {

/// The error of `core::str::from_utf8`. Nothing is read from it.
#[verifier::external_type_specification]
#[verifier::external_body]
pub struct ExUtf8Error(Utf8Error);

/// `core::str::from_utf8` accepts exactly the byte slices that are valid
/// UTF-8, and the string slice it returns for one is made of those same
/// bytes. This is taken from the documentation of the standard library; it
/// is not proved here.
pub assume_specification[ core::str::from_utf8 ](v: &[u8]) -> (r: Result<&str, Utf8Error>)
    ensures
        r is Ok <==> valid_utf8(v@),
        r matches Ok(s) ==> s.spec_bytes() == v@,
;

/// The byte of the space character.
pub(crate) const SPACE: u8 = 0x20;

/// The byte of the carriage return.
pub(crate) const CARRIAGE_RETURN: u8 = 0x0d;

/// The byte of `&`.
pub(crate) const AMPERSAND: u8 = 0x26;

/// The byte of `=`.
pub(crate) const EQUALS_SIGN: u8 = 0x3d;

/// The byte of `?`.
pub(crate) const QUESTION_MARK: u8 = 0x3f;

/// The index of the first character of `s` that belongs to `stops`, or the
/// length of `s` if no character does.
pub open spec fn first_stop(s: Seq<char>, stops: Set<char>) -> nat
    decreases s.len(),
{
    if s.len() == 0 || stops.contains(s[0]) {
        0
    } else {
        1 + first_stop(s.drop_first(), stops)
    }
}

/// Whether some character of `s` belongs to `stops`.
pub open spec fn has_stop(s: Seq<char>, stops: Set<char>) -> bool {
    first_stop(s, stops) < s.len()
}

/// The text of `s` before its first stop: all of `s` if it has none.
pub open spec fn before_stop(s: Seq<char>, stops: Set<char>) -> Seq<char> {
    s.take(first_stop(s, stops) as int)
}

/// The text of `s` after its first stop, for an `s` that has one.
pub open spec fn after_stop(s: Seq<char>, stops: Set<char>) -> Seq<char>
    recommends
        has_stop(s, stops),
{
    s.skip(first_stop(s, stops) as int + 1)
}

/// `first_stop` lies within `s`, no character before it is a stop, and the
/// character at it, if there is one, is a stop.
pub proof fn lemma_first_stop(s: Seq<char>, stops: Set<char>)
    ensures
        first_stop(s, stops) <= s.len(),
        forall|j: int| 0 <= j < first_stop(s, stops) ==> !stops.contains(#[trigger] s[j]),
        first_stop(s, stops) < s.len() ==> stops.contains(s[first_stop(s, stops) as int]),
    decreases s.len(),
{
    if s.len() == 0 || stops.contains(s[0]) {
    } else {
        let t = s.drop_first();
        lemma_first_stop(t, stops);
        assert forall|j: int| 0 <= j < first_stop(s, stops) implies !stops.contains(
            #[trigger] s[j],
        ) by {
            if j > 0 {
                assert(s[j] == t[j - 1]);
            }
        }
        if first_stop(s, stops) < s.len() {
            assert(s[first_stop(s, stops) as int] == t[first_stop(t, stops) as int]);
        }
    }
}

/// The only index with the properties of `lemma_first_stop` is `first_stop`.
pub proof fn lemma_first_stop_is(s: Seq<char>, stops: Set<char>, k: int)
    requires
        0 <= k <= s.len(),
        forall|j: int| 0 <= j < k ==> !stops.contains(#[trigger] s[j]),
        k < s.len() ==> stops.contains(s[k]),
    ensures
        first_stop(s, stops) == k,
    decreases s.len(),
{
    if k == 0 {
    } else {
        let t = s.drop_first();
        assert(!stops.contains(s[0]));
        assert forall|j: int| 0 <= j < k - 1 implies !stops.contains(#[trigger] t[j]) by {
            assert(t[j] == s[j + 1]);
        }
        lemma_first_stop_is(t, stops, k - 1);
    }
}

/// An ASCII character of `chars` shows up as its own byte in the encoding.
proof fn lemma_ascii_char_has_byte(chars: Seq<char>, k: int) -> (j: int)
    requires
        0 <= k < chars.len(),
        '\0' <= chars[k] <= '\u{7f}',
    ensures
        0 <= j < encode_utf8(chars).len(),
        encode_utf8(chars)[j] == chars[k] as u8,
    decreases chars.len(),
{
    let first = encode_scalar(chars[0] as u32);
    let rest = encode_utf8(chars.drop_first());
    assert(encode_utf8(chars) == first + rest);
    if k == 0 {
        let c = chars[0] as u32;
        assert(c as u8 == leading_byte_width_1(c)) by (bit_vector)
            requires
                c <= 0x7f,
        ;
        assert(first == seq![leading_byte_width_1(c)]);
        assert((first + rest)[0] == first[0]);
        assert(chars[0] as u8 == c as u8);
        0
    } else {
        assert(chars.drop_first()[k - 1] == chars[k]);
        let j = lemma_ascii_char_has_byte(chars.drop_first(), k - 1);
        assert((first + rest)[first.len() + j] == rest[j]);
        first.len() + j
    }
}

/// A valid encoding falls apart around an ASCII byte: what stands before
/// it and what stands after it are valid encodings, and the byte itself is
/// the one character between their texts.
proof fn lemma_split_at_ascii_byte(bytes: Seq<u8>, i: int)
    requires
        valid_utf8(bytes),
        0 <= i < bytes.len(),
        bytes[i] <= 0x7f,
    ensures
        is_char_boundary(bytes, i),
        is_char_boundary(bytes.subrange(i, bytes.len() as int), 1),
        valid_utf8(bytes.subrange(i, bytes.len() as int)),
        decode_utf8(bytes) == decode_utf8(bytes.subrange(0, i)) + seq![bytes[i] as char]
            + decode_utf8(bytes.subrange(i + 1, bytes.len() as int)),
{
    let tail = bytes.subrange(i, bytes.len() as int);
    is_char_boundary_iff_not_is_continuation_byte(bytes, i);
    valid_utf8_split(bytes, i);
    decode_utf8_split(bytes, i);
    assert(tail[0] == bytes[i]);
    assert(pop_first_scalar(tail) == bytes.subrange(i + 1, bytes.len() as int));
    reveal_with_fuel(is_char_boundary, 2);
    let b = bytes[i];
    assert(codepoint_width_1(b) == b as u32) by (bit_vector)
        requires
            b <= 0x7f,
    ;
}

/// Splits `s` around its first character that is `a` or `b`: the text
/// before that character and the text after it. `None` if neither
/// character occurs. Both halves borrow from `s`.
pub(crate) fn split_at_stop<'a>(s: &'a str, a: u8, b: u8) -> (r: Option<(&'a str, &'a str)>)
    requires
        a <= 0x7f,
        b <= 0x7f,
    ensures
        ({
            let stops = set![a as char, b as char];
            match r {
                Some((head, rest)) => has_stop(s@, stops) && head@ == before_stop(s@, stops)
                    && rest@ == after_stop(s@, stops),
                None => !has_stop(s@, stops),
            }
        }),
{
    let ghost stops = set![a as char, b as char];
    let bytes = s.as_bytes();
    let n: usize = bytes.len();
    let mut i: usize = 0;
    while i < n
        invariant
            bytes@ == encode_utf8(s@),
            n == bytes@.len(),
            i <= n,
            forall|j: int| 0 <= j < i ==> bytes@[j] != a && bytes@[j] != b,
            a <= 0x7f,
            b <= 0x7f,
            stops == set![a as char, b as char],
        decreases n - i,
    {
        if bytes[i] == a || bytes[i] == b {
            proof {
                encode_utf8_valid_utf8(s@);
                lemma_split_at_ascii_byte(bytes@, i as int);
            }
            let (head, tail) = s.split_at(i);
            let (_, rest) = tail.split_at(1);
            proof {
                let c = bytes@[i as int] as char;
                assert(head.spec_bytes() == bytes@.subrange(0, i as int));
                assert(rest.spec_bytes() == bytes@.subrange(i + 1, n as int));
                encode_utf8_decode_utf8(s@);
                encode_utf8_decode_utf8(head@);
                encode_utf8_decode_utf8(rest@);
                assert(s@ == head@ + seq![c] + rest@);
                assert(stops.contains(c));
                assert forall|j: int| 0 <= j < head@.len() implies !stops.contains(
                    #[trigger] s@[j],
                ) by {
                    if stops.contains(s@[j]) {
                        let m = lemma_ascii_char_has_byte(head@, j);
                    }
                }
                lemma_first_stop_is(s@, stops, head@.len() as int);
            }
            return Some((head, rest));
        }
        i += 1;
    }
    proof {
        assert forall|j: int| 0 <= j < s@.len() implies !stops.contains(#[trigger] s@[j]) by {
            if stops.contains(s@[j]) {
                let m = lemma_ascii_char_has_byte(s@, j);
            }
        }
        lemma_first_stop_is(s@, stops, s@.len() as int);
    }
    None
}

/// Splits `s` around its first character `c`, as `split_at_stop` does.
pub(crate) fn split_once<'a>(s: &'a str, c: u8) -> (r: Option<(&'a str, &'a str)>)
    requires
        c <= 0x7f,
    ensures
        match r {
            Some((head, rest)) => has_stop(s@, set![c as char]) && head@ == before_stop(
                s@,
                set![c as char],
            ) && rest@ == after_stop(s@, set![c as char]),
            None => !has_stop(s@, set![c as char]),
        },
{
    assert(set![c as char, c as char] =~= set![c as char]);
    split_at_stop(s, c, c)
}

/// The characters that end a word of the request line: the space and the
/// carriage return.
pub open spec fn word_breaks() -> Set<char> {
    set![' ', '\r']
}

/// Peels the first word off `str`: the text before its first space or
/// carriage return, and the text that follows that character. `None` if
/// `str` holds neither. Both parts borrow from `str`; nothing is copied.
pub fn next_word(str: &str) -> (r: Option<(&str, &str)>)
    ensures
        match r {
            Some((word, rest)) => has_stop(str@, word_breaks()) && word@ == before_stop(
                str@,
                word_breaks(),
            ) && rest@ == after_stop(str@, word_breaks()),
            None => !has_stop(str@, word_breaks()),
        },
{
    split_at_stop(str, SPACE, CARRIAGE_RETURN)
}

/// Whether two string slices hold the same text.
pub(crate) fn same_text(a: &str, b: &str) -> (r: bool)
    ensures
        r == (a@ == b@),
{
    broadcast use encode_utf8_decode_utf8;

    let x = a.as_bytes();
    let y = b.as_bytes();
    let n: usize = x.len();
    if n != y.len() {
        return false;
    }
    let mut i: usize = 0;
    while i < n
        invariant
            x@ == encode_utf8(a@),
            y@ == encode_utf8(b@),
            n == x@.len(),
            n == y@.len(),
            i <= n,
            forall|j: int| 0 <= j < i ==> x@[j] == y@[j],
        decreases n - i,
    {
        if x[i] != y[i] {
            return false;
        }
        i += 1;
    }
    assert(x@ =~= y@);
    assert(decode_utf8(encode_utf8(a@)) == decode_utf8(encode_utf8(b@)));
    true
}

} // verus!
