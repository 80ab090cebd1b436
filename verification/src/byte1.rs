//! Finding one character, or a short text, in a string: by characters, by
//! bytes, and with the search routines of `std` and `memchr`.

use vstd::prelude::*;
use vstd::string::{StrSliceExecFns, StringSliceAdditionalSpecFns};
use vstd::utf8::encode_utf8;
use rand::rngs::ThreadRng;
use crate::aligned_writer::lemma_width_covers_chars;
use crate::position::is_first_position;
use crate::random_strings::{is_lowercase, push_random_lowercase};
use crate::rng::gen_range_inclusive_u32;

verus! {

/// `pos` is the byte offset at which the first `needle` of `haystack` starts:
/// the length in bytes of everything before it.
pub open spec fn is_first_byte_offset_of_char(haystack: Seq<char>, needle: char, pos: Option<usize>) -> bool {
    match pos {
        Some(p) => exists|k: int|
            {
                &&& 0 <= k < haystack.len()
                &&& haystack[k] == needle
                &&& forall|j: int| 0 <= j < k ==> haystack[j] != needle
                &&& p == encode_utf8(#[trigger] haystack.take(k)).len()
            },
        None => forall|j: int| 0 <= j < haystack.len() ==> haystack[j] != needle,
    }
}

/// `needle` occurs in `haystack` from position `at` on.
pub open spec fn occurs_at(haystack: Seq<u8>, needle: Seq<u8>, at: int) -> bool {
    0 <= at && at + needle.len() <= haystack.len() && haystack.subrange(
        at,
        at + needle.len(),
    ) == needle
}

/// `pos` is the first position from which on `needle` occurs in `haystack`.
pub open spec fn is_first_occurrence(haystack: Seq<u8>, needle: Seq<u8>, pos: Option<usize>) -> bool {
    match pos {
        Some(p) => occurs_at(haystack, needle, p as int) && forall|j: int|
            0 <= j < p ==> !occurs_at(haystack, needle, j),
        None => forall|j: int| !occurs_at(haystack, needle, j),
    }
}

/// On a text of ASCII characters all ways of looking for an ASCII character
/// come to the same: its position counted in characters is its position
/// among the bytes, and is the byte offset at which it starts.
pub proof fn lemma_ascii_positions_agree(haystack: Seq<char>, needle: char, pos: Option<usize>)
    requires
        vstd::utf8::is_ascii_chars(haystack),
        needle <= '\u{7f}',
    ensures
        is_first_position(haystack, needle, pos) <==> is_first_position(
            encode_utf8(haystack),
            needle as u8,
            pos,
        ),
        is_first_position(haystack, needle, pos) <==> is_first_byte_offset_of_char(
            haystack,
            needle,
            pos,
        ),
{
    let bytes = encode_utf8(haystack);
    vstd::utf8::is_ascii_chars_encode_utf8(haystack);
    assert forall|i: int| 0 <= i < haystack.len() implies (haystack[i] == needle <==> bytes[i]
        == needle as u8) by {
        let a = haystack[i];
        assert(bytes[i] == a as u8);
        assert(a <= '\u{7f}');
        if a as u8 == needle as u8 {
            assert(a as u32 == needle as u32);
        }
    }
    assert forall|k: int| 0 <= k <= haystack.len() implies #[trigger] encode_utf8(
        haystack.take(k),
    ).len() == k by {
        assert(vstd::utf8::is_ascii_chars(haystack.take(k)));
        vstd::utf8::is_ascii_chars_encode_utf8(haystack.take(k));
    }
    match pos {
        Some(p) => {
            if is_first_position(haystack, needle, pos) {
                assert(encode_utf8(haystack.take(p as int)).len() == p);
            }
            if is_first_byte_offset_of_char(haystack, needle, pos) {
                let k = choose|k: int|
                    {
                        &&& 0 <= k < haystack.len()
                        &&& haystack[k] == needle
                        &&& forall|j: int| 0 <= j < k ==> haystack[j] != needle
                        &&& p == encode_utf8(#[trigger] haystack.take(k)).len()
                    };
                assert(encode_utf8(haystack.take(k)).len() == k);
            }
        },
        None => {},
    }
}

/// `str::find` with a `char` as the pattern: the byte offset of the first
/// character that is `c`, or `None` if there is none.
#[verifier::external_body]
fn str_find_char(s: &str, c: char) -> (pos: Option<usize>)
    ensures
        is_first_byte_offset_of_char(s@, c, pos),
{
    s.find(c)
}

/// `str::find` with a `&str` as the pattern: the byte offset at which the
/// first occurrence of `needle` starts, or `None` if there is none.
#[verifier::external_body]
fn str_find_str(s: &str, needle: &str) -> (pos: Option<usize>)
    ensures
        is_first_occurrence(s.spec_bytes(), needle.spec_bytes(), pos),
{
    s.find(needle)
}

/// `memchr::memchr`: the index of the first occurrence of `needle` in
/// `haystack`, or `None` if there is none.
#[verifier::external_body]
fn memchr_first(needle: u8, haystack: &[u8]) -> (pos: Option<usize>)
    ensures
        is_first_position(haystack@, needle, pos),
{
    memchr::memchr(needle, haystack)
}

/// The position of the first `c` in `s`, counted in characters.
pub fn find_char_chars_enumerate(s: &str, c: char) -> (pos: Option<usize>)
    ensures
        is_first_position(s@, c, pos),
{
    let bytes: usize = s.as_bytes().len();
    proof {
        lemma_width_covers_chars(s@);
    }
    let mut i: usize = 0;
    for ch in iter: s.chars()
        invariant
            i == iter.index(),
            iter.seq() == s@,
            s@.len() <= bytes,
            forall|j: int| 0 <= j < i ==> s@[j] != c,
    {
        if ch == c {
            return Some(i);
        }
        i += 1;
    }
    None
}

/// The byte offset of the first `c` in `s`, as `std` finds it.
pub fn find_char_string_find_char(s: &str, c: char) -> (pos: Option<usize>)
    ensures
        is_first_byte_offset_of_char(s@, c, pos),
{
    str_find_char(s, c)
}

/// The byte offset of the first occurrence of `needle` in `s`, as `std`
/// finds it.
pub fn find_str(s: &str, needle: &str) -> (pos: Option<usize>)
    ensures
        is_first_occurrence(s.spec_bytes(), needle.spec_bytes(), pos),
{
    str_find_str(s, needle)
}

/// The position of the first `needle` among `haystack`, byte by byte.
pub fn find_byte(haystack: &[u8], needle: u8) -> (pos: Option<usize>)
    ensures
        is_first_position(haystack@, needle, pos),
{
    let mut i: usize = 0;
    while i < haystack.len()
        invariant
            i <= haystack@.len(),
            forall|j: int| 0 <= j < i ==> haystack@[j] != needle,
        decreases haystack.len() - i,
    {
        if haystack[i] == needle {
            return Some(i);
        }
        i += 1;
    }
    None
}

/// The largest code point that is looked for as a single byte.
pub const SINGLE_BYTE_LIMIT: u32 = 0xf7;

/// Looks for `needle` byte by byte where its code point is at most
/// [`SINGLE_BYTE_LIMIT`]: the position of the first byte of the string with
/// that value. Any other needle is left to
/// [`find_char_string_find_char`].
pub fn find_char_with_ascii(s: &str, needle: char) -> (pos: Option<usize>)
    ensures
        needle as u32 <= SINGLE_BYTE_LIMIT ==> is_first_position(
            s.spec_bytes(),
            needle as u8,
            pos,
        ),
        needle as u32 > SINGLE_BYTE_LIMIT ==> is_first_byte_offset_of_char(s@, needle, pos),
{
    if needle as u32 <= SINGLE_BYTE_LIMIT {
        return find_byte(s.as_bytes(), needle as u8);
    }
    find_char_string_find_char(s, needle)
}

/// As [`find_char_with_ascii`], with `memchr` for the search among the
/// bytes.
pub fn find_char_with_ascii_memchr(s: &str, needle: char) -> (pos: Option<usize>)
    ensures
        needle as u32 <= SINGLE_BYTE_LIMIT ==> is_first_position(
            s.spec_bytes(),
            needle as u8,
            pos,
        ),
        needle as u32 > SINGLE_BYTE_LIMIT ==> is_first_byte_offset_of_char(s@, needle, pos),
{
    if needle as u32 <= SINGLE_BYTE_LIMIT {
        return memchr_first(needle as u8, s.as_bytes());
    }
    find_char_string_find_char(s, needle)
}

/// The number of strings that [`gen_random_strings`] makes.
pub const RANDOM_STRINGS: usize = 1000;

/// The longest string that [`gen_random_strings`] makes.
pub const RANDOM_STRING_MAX_LEN: u32 = 30;

/// A thousand random strings of up to thirty characters from `a` to `z`.
pub fn gen_random_strings() -> (strings: Vec<String>)
    ensures
        strings@.len() == RANDOM_STRINGS,
        forall|i: int|
            0 <= i < strings@.len() ==> (#[trigger] strings@[i])@.len() <= RANDOM_STRING_MAX_LEN
                && is_lowercase(strings@[i]@),
{
    let mut rng: ThreadRng = rand::thread_rng();
    let mut strings: Vec<String> = Vec::new();
    let mut n: usize = 0;
    while n < RANDOM_STRINGS
        invariant
            n <= RANDOM_STRINGS,
            strings@.len() == n,
            forall|i: int|
                0 <= i < strings@.len() ==> (#[trigger] strings@[i])@.len()
                    <= RANDOM_STRING_MAX_LEN && is_lowercase(strings@[i]@),
        decreases RANDOM_STRINGS - n,
    {
        let len: u32 = gen_range_inclusive_u32(&mut rng, 0, RANDOM_STRING_MAX_LEN);
        let mut s: String = String::new();
        push_random_lowercase(&mut s, &mut rng, len as usize);
        assert(s@.subrange(0, s@.len() as int) =~= s@);
        strings.push(s);
        n += 1;
    }
    strings
}

} // verus!
