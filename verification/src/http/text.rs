//! Scanning of string slices for ASCII delimiters.
//!
//! The functions here work on the UTF-8 bytes of a `&str` and state their
//! results over its characters, so that callers never reason about bytes.

use vstd::prelude::*;
use vstd::string::StringSliceAdditionalSpecFns;
use vstd::utf8::*;
use core::str::Utf8Error;

verus! {

/// The error type of `core::str::from_utf8`. Nothing is known of a value of
/// it; it is only ever turned into a `ParseError`.
#[verifier::external_type_specification]
#[verifier::external_body]
pub struct ExUtf8Error(Utf8Error);

/// Believed, not proved, of `core::str::from_utf8`: it succeeds exactly on
/// well-formed UTF-8, and the slice it then returns has the bytes that it
/// was given.
pub assume_specification[ core::str::from_utf8 ](v: &[u8]) -> (r: Result<&str, Utf8Error>)
    ensures
        r is Ok <==> valid_utf8(v@),
        r matches Ok(s) ==> s.spec_bytes() == v@,
;

/// Whether `c` occurs nowhere in `s`.
pub open spec fn lacks(s: Seq<char>, c: char) -> bool {
    forall|j: int| 0 <= j < s.len() ==> s[j] != c
}

/// Index of the first element of `s` equal to `a` or to `b`; `s.len()` when
/// neither occurs.
pub open spec fn first_of(s: Seq<char>, a: char, b: char) -> int
    decreases s.len(),
{
    if s.len() == 0 || s[0] == a || s[0] == b {
        0
    } else {
        1 + first_of(s.drop_first(), a, b)
    }
}

/// The part of `s` before its first `a` or `b`, and the part after it;
/// `None` when `s` holds neither.
pub open spec fn cut(s: Seq<char>, a: char, b: char) -> Option<(Seq<char>, Seq<char>)> {
    let n = first_of(s, a, b);
    if 0 <= n < s.len() {
        Some((s.take(n), s.skip(n + 1)))
    } else {
        None
    }
}

/// `first_of` is in range, nothing before it is a delimiter, and where it is
/// an index it points at one.
pub proof fn lemma_first_of(s: Seq<char>, a: char, b: char)
    ensures
        0 <= first_of(s, a, b) <= s.len(),
        forall|j: int| 0 <= j < first_of(s, a, b) ==> s[j] != a && s[j] != b,
        first_of(s, a, b) < s.len() ==> s[first_of(s, a, b)] == a || s[first_of(s, a, b)] == b,
    decreases s.len(),
{
    if s.len() == 0 || s[0] == a || s[0] == b {
    } else {
        let t = s.drop_first();
        lemma_first_of(t, a, b);
        assert forall|j: int| 0 <= j < first_of(s, a, b) implies s[j] != a && s[j] != b by {
            if j > 0 {
                assert(s[j] == t[j - 1]);
            }
        }
        if first_of(t, a, b) < t.len() {
            assert(s[first_of(s, a, b)] == t[first_of(t, a, b)]);
        }
    }
}

/// Any index that meets the three clauses of `lemma_first_of` is `first_of`.
pub proof fn lemma_first_of_unique(s: Seq<char>, a: char, b: char, n: int)
    requires
        0 <= n <= s.len(),
        forall|j: int| 0 <= j < n ==> s[j] != a && s[j] != b,
        n < s.len() ==> s[n] == a || s[n] == b,
    ensures
        first_of(s, a, b) == n,
{
    lemma_first_of(s, a, b);
}

/// A cut yields the two sides of a delimiter, and the head holds none.
pub proof fn lemma_cut(s: Seq<char>, a: char, b: char)
    ensures
        match cut(s, a, b) {
            Some((head, tail)) => {
                &&& head.len() < s.len()
                &&& s[head.len() as int] == a || s[head.len() as int] == b
                &&& s == head + seq![s[head.len() as int]] + tail
                &&& forall|j: int| 0 <= j < head.len() ==> head[j] != a && head[j] != b
            },
            None => forall|j: int| 0 <= j < s.len() ==> s[j] != a && s[j] != b,
        },
{
    lemma_first_of(s, a, b);
    let n = first_of(s, a, b);
    if n < s.len() {
        assert(s =~= s.take(n) + seq![s[n]] + s.skip(n + 1));
    }
}

/// If `s` is a delimiter-free `head`, then a delimiter `d`, then `tail`,
/// the cut of `s` is `(head, tail)`.
pub proof fn lemma_cut_concat(head: Seq<char>, d: char, tail: Seq<char>, a: char, b: char)
    requires
        d == a || d == b,
        forall|j: int| 0 <= j < head.len() ==> head[j] != a && head[j] != b,
    ensures
        cut(head + seq![d] + tail, a, b) == Some((head, tail)),
{
    let s = head + seq![d] + tail;
    let n = head.len() as int;
    assert(s[n] == d);
    assert forall|j: int| 0 <= j < n implies s[j] != a && s[j] != b by {
        assert(s[j] == head[j]);
    }
    lemma_first_of_unique(s, a, b, n);
    assert(s.take(n) =~= head);
    assert(s.skip(n + 1) =~= tail);
}

/// A string without delimiters has no cut.
pub proof fn lemma_cut_none(s: Seq<char>, a: char, b: char)
    requires
        forall|j: int| 0 <= j < s.len() ==> s[j] != a && s[j] != b,
    ensures
        cut(s, a, b) is None,
{
    lemma_first_of_unique(s, a, b, s.len() as int);
}

/// The tokens of `s` between occurrences of `sep`. A string without `sep` is
/// one token; an empty stretch between two separators is an empty token.
pub open spec fn split(s: Seq<char>, sep: char) -> Seq<Seq<char>>
    decreases s.len(),
{
    match cut(s, sep, sep) {
        Some((head, tail)) => seq![head] + split(tail, sep),
        None => seq![s],
    }
}

/// The tokens of `tokens` in a row, with `sep` between each two.
pub open spec fn join(tokens: Seq<Seq<char>>, sep: char) -> Seq<char>
    decreases tokens.len(),
{
    if tokens.len() == 0 {
        Seq::empty()
    } else if tokens.len() == 1 {
        tokens[0]
    } else {
        tokens[0] + seq![sep] + join(tokens.drop_first(), sep)
    }
}

/// Splitting loses nothing: there is at least one token, no token holds
/// the separator, and joined again the tokens are the text.
pub proof fn lemma_join_of_split(s: Seq<char>, sep: char)
    ensures
        split(s, sep).len() >= 1,
        forall|i: int| 0 <= i < split(s, sep).len() ==> lacks(#[trigger] split(s, sep)[i], sep),
        join(split(s, sep), sep) == s,
    decreases s.len(),
{
    lemma_cut(s, sep, sep);
    match cut(s, sep, sep) {
        Some((head, tail)) => {
            lemma_join_of_split(tail, sep);
            let tokens = split(s, sep);
            assert(tokens.drop_first() =~= split(tail, sep));
            assert forall|i: int| 0 <= i < tokens.len() implies lacks(#[trigger] tokens[i], sep) by {
                if i > 0 {
                    assert(tokens[i] == split(tail, sep)[i - 1]);
                }
            }
        },
        None => {},
    }
}

/// Splitting is the only way to take a text apart: tokens that hold no
/// separator are what their joined text splits into.
pub proof fn lemma_split_of_join(tokens: Seq<Seq<char>>, sep: char)
    requires
        tokens.len() >= 1,
        forall|i: int| 0 <= i < tokens.len() ==> lacks(#[trigger] tokens[i], sep),
    ensures
        split(join(tokens, sep), sep) == tokens,
    decreases tokens.len(),
{
    if tokens.len() == 1 {
        lemma_cut_none(tokens[0], sep, sep);
        assert(split(tokens[0], sep) =~= tokens);
    } else {
        let rest = tokens.drop_first();
        assert forall|i: int| 0 <= i < rest.len() implies lacks(#[trigger] rest[i], sep) by {
            assert(rest[i] == tokens[i + 1]);
        }
        lemma_split_of_join(rest, sep);
        lemma_cut_concat(tokens[0], sep, join(rest, sep), sep, sep);
        assert(seq![tokens[0]] + rest =~= tokens);
    }
}

/// Whether `c` is in the ASCII range, and so is one byte in UTF-8.
pub open spec fn is_ascii_char(c: char) -> bool {
    (c as u32) < 0x80
}

/// The UTF-8 encoding of an ASCII character is the character's own byte.
proof fn lemma_encode_ascii(c: char)
    requires
        is_ascii_char(c),
    ensures
        encode_scalar(c as u32) == seq![c as u8],
{
    let v = c as u32;
    assert((v & 0x7F) as u8 == v as u8) by (bit_vector)
        requires
            v < 0x80,
    ;
}

/// An ASCII character of `chars` appears, as its own byte, in the UTF-8
/// encoding of `chars`.
proof fn lemma_ascii_char_is_encoded(chars: Seq<char>, k: int)
    requires
        0 <= k < chars.len(),
        is_ascii_char(chars[k]),
    ensures
        exists|j: int|
            0 <= j < encode_utf8(chars).len() && #[trigger] encode_utf8(chars)[j] == chars[k] as u8,
    decreases chars.len(),
{
    let first = encode_scalar(chars[0] as u32);
    let rest = chars.drop_first();
    if k == 0 {
        lemma_encode_ascii(chars[0]);
        assert(encode_utf8(chars)[0] == chars[0] as u8);
    } else {
        lemma_ascii_char_is_encoded(rest, k - 1);
        let j = choose|j: int|
            0 <= j < encode_utf8(rest).len() && #[trigger] encode_utf8(rest)[j] == rest[k - 1] as u8;
        assert(encode_utf8(chars)[first.len() + j] == chars[k] as u8);
    }
}

/// Text whose encoding avoids the bytes of two ASCII characters holds
/// neither character.
proof fn lemma_absent_bytes_absent_chars(chars: Seq<char>, a: char, b: char)
    requires
        is_ascii_char(a),
        is_ascii_char(b),
        forall|j: int|
            0 <= j < encode_utf8(chars).len() ==> encode_utf8(chars)[j] != a as u8 && encode_utf8(
                chars,
            )[j] != b as u8,
    ensures
        forall|k: int| 0 <= k < chars.len() ==> chars[k] != a && chars[k] != b,
{
    assert forall|k: int| 0 <= k < chars.len() implies chars[k] != a && chars[k] != b by {
        if chars[k] == a || chars[k] == b {
            lemma_ascii_char_is_encoded(chars, k);
        }
    }
}

/// A one-byte encoding decodes to the character with that byte's value.
proof fn lemma_decode_ascii_byte(bytes: Seq<u8>)
    requires
        bytes.len() == 1,
        bytes[0] < 0x80,
    ensures
        valid_utf8(bytes),
        decode_utf8(bytes) == seq![bytes[0] as char],
{
    let c = bytes[0];
    assert((c & 0x7F) as u32 == c as u32) by (bit_vector)
        requires
            c < 0x80,
    ;
    let rest = pop_first_scalar(bytes);
    assert(rest.len() == 0);
    assert(valid_utf8(rest));
    assert(valid_utf8(bytes));
    assert(decode_utf8(rest) =~= Seq::<char>::empty());
    assert(decode_utf8(bytes) =~= seq![bytes[0] as char]);
}

/// In valid UTF-8, a byte below 0x80 at index `i` is a character of its
/// own: the text is what precedes it, then that character, then what
/// follows.
proof fn lemma_decode_around_ascii_byte(bytes: Seq<u8>, i: int)
    requires
        valid_utf8(bytes),
        0 <= i < bytes.len(),
        bytes[i] < 0x80,
    ensures
        is_char_boundary(bytes, i),
        is_char_boundary(bytes.subrange(i, bytes.len() as int), 1),
        valid_utf8(bytes.subrange(0, i)),
        valid_utf8(bytes.subrange(i, bytes.len() as int)),
        valid_utf8(bytes.subrange(i + 1, bytes.len() as int)),
        decode_utf8(bytes) == decode_utf8(bytes.subrange(0, i)) + seq![bytes[i] as char]
            + decode_utf8(bytes.subrange(i + 1, bytes.len() as int)),
{
    let n = bytes.len() as int;
    let rest = bytes.subrange(i, n);
    is_char_boundary_iff_is_leading_byte(bytes, i);
    valid_utf8_split(bytes, i);
    decode_utf8_split(bytes, i);
    assert(rest[0] == bytes[i]);
    assert(pop_first_scalar(rest) =~= bytes.subrange(i + 1, n));
    assert(is_char_boundary(rest, 1)) by {
        reveal_with_fuel(is_char_boundary, 2);
    }
    valid_utf8_split(rest, 1);
    decode_utf8_split(rest, 1);
    assert(rest.subrange(1, rest.len() as int) =~= bytes.subrange(i + 1, n));
    lemma_decode_ascii_byte(rest.subrange(0, 1));
    assert(decode_utf8(bytes) =~= decode_utf8(bytes.subrange(0, i)) + seq![bytes[i] as char]
        + decode_utf8(bytes.subrange(i + 1, n)));
}

/// Splits `s` at its first `a` or `b`: the part before the delimiter and the
/// part after it, both borrowed from `s`. `None` when `s` holds neither.
/// The delimiters are ASCII, so the bytes of `s` can be searched for them.
pub(crate) fn split_at_first<'a>(s: &'a str, a: char, b: char) -> (r: Option<(&'a str, &'a str)>)
    requires
        is_ascii_char(a),
        is_ascii_char(b),
    ensures
        match r {
            Some((head, tail)) => cut(s@, a, b) == Some((head@, tail@)),
            None => cut(s@, a, b) is None,
        },
{
    broadcast use {encode_utf8_valid_utf8, encode_utf8_decode_utf8};

    let bytes = s.as_bytes();
    let n = bytes.len();
    let x = a as u8;
    let y = b as u8;
    let mut i: usize = 0;
    while i < n
        invariant
            bytes@ == s.spec_bytes(),
            n == bytes@.len(),
            i <= n,
            is_ascii_char(a),
            is_ascii_char(b),
            x == a as u8,
            y == b as u8,
            forall|j: int| 0 <= j < i ==> bytes@[j] != x && bytes@[j] != y,
        decreases n - i,
    {
        let c = bytes[i];
        if c == x || c == y {
            proof {
                encode_utf8_valid_utf8(s@);
                lemma_decode_around_ascii_byte(bytes@, i as int);
            }
            let (head, rest) = s.split_at(i);
            let (_, tail) = rest.split_at(1);
            proof {
                let d = c as char;
                assert(rest.spec_bytes().subrange(1, rest.spec_bytes().len() as int)
                    =~= bytes@.subrange(i + 1, n as int));
                encode_utf8_decode_utf8(s@);
                encode_utf8_decode_utf8(head@);
                encode_utf8_decode_utf8(tail@);
                assert(s@ == head@ + seq![d] + tail@);
                assert(d == a || d == b);
                lemma_absent_bytes_absent_chars(head@, a, b);
                lemma_cut_concat(head@, d, tail@, a, b);
            }
            return Some((head, tail));
        }
        i += 1;
    }
    proof {
        lemma_absent_bytes_absent_chars(s@, a, b);
        lemma_cut_none(s@, a, b);
    }
    None
}

/// Whether two string slices hold the same characters.
pub fn str_eq(a: &str, b: &str) -> (r: bool)
    ensures
        r == (a@ == b@),
{
    broadcast use encode_utf8_decode_utf8;

    let x = a.as_bytes();
    let y = b.as_bytes();
    if x.len() != y.len() {
        return false;
    }
    let n = x.len();
    let mut i: usize = 0;
    while i < n
        invariant
            x@ == a.spec_bytes(),
            y@ == b.spec_bytes(),
            n == x@.len(),
            n == y@.len(),
            i <= n,
            forall|j: int| 0 <= j < i ==> x@[j] == y@[j],
        decreases n - i,
    {
        if x[i] != y[i] {
            return false;
        }
        i += 1;
    }
    proof {
        assert(x@ =~= y@);
        assert(decode_utf8(a.spec_bytes()) == a@);
        assert(decode_utf8(b.spec_bytes()) == b@);
    }
    true
}

} // verus!
