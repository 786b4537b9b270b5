//! Byte-level text searching: the specification vocabulary (occurrences,
//! prefixes, suffixes, first positions) and verified executable helpers that
//! the matchers are built on, together with the UTF-8 boundary lemmas that
//! let `&str` values be sliced at ASCII delimiters.

use vstd::prelude::*;
use vstd::string::StringSliceAdditionalSpecFns;
use vstd::utf8::encode_utf8_valid_utf8;
use vstd::utf8::is_char_boundary;
use vstd::utf8::is_char_boundary_iff_not_is_continuation_byte;
use vstd::utf8::is_char_boundary_start_end_of_seq;
use vstd::utf8::is_continuation_byte;
use vstd::utf8::is_leading_byte_width_1;
use vstd::utf8::length_of_first_scalar;
use vstd::utf8::pop_first_scalar;
use vstd::utf8::valid_first_scalar;
use vstd::utf8::valid_utf8;

verus! {

/// True when `needle` occurs in `hay` starting exactly at index `i`.
pub open spec fn is_match_at(hay: Seq<u8>, needle: Seq<u8>, i: int) -> bool {
    0 <= i && i + needle.len() <= hay.len() && hay.subrange(i, i + needle.len() as int) == needle
}

/// True when `hay` starts with `needle`.
pub open spec fn is_prefix_of(needle: Seq<u8>, hay: Seq<u8>) -> bool {
    is_match_at(hay, needle, 0)
}

/// True when `hay` ends with `needle`.
pub open spec fn is_suffix_of(needle: Seq<u8>, hay: Seq<u8>) -> bool {
    needle.len() <= hay.len() && is_match_at(hay, needle, hay.len() - needle.len())
}

/// True when `needle` occurs somewhere in `hay` at or after index `from`.
pub open spec fn occurs_from(hay: Seq<u8>, needle: Seq<u8>, from: int) -> bool {
    exists|i: int| from <= i && is_match_at(hay, needle, i)
}

/// True when `needle` occurs somewhere in `hay`.
pub open spec fn occurs(hay: Seq<u8>, needle: Seq<u8>) -> bool {
    occurs_from(hay, needle, 0)
}

/// Index of the first occurrence of `needle` in `hay` at or after `from`;
/// meaningful only when such an occurrence exists.
pub open spec fn first_occurrence_from(hay: Seq<u8>, needle: Seq<u8>, from: int) -> int
    recommends
        0 <= from <= hay.len(),
    decreases hay.len() + 1 - from,
{
    if from < 0 || from > hay.len() {
        from
    } else if is_match_at(hay, needle, from) {
        from
    } else {
        first_occurrence_from(hay, needle, from + 1)
    }
}

/// Index of the first byte equal to `b` in `hay` at or after `from`;
/// `hay.len()` when there is none.
pub open spec fn byte_index_from(hay: Seq<u8>, b: u8, from: int) -> int
    decreases hay.len() - from,
{
    if !(0 <= from < hay.len()) {
        hay.len() as int
    } else if hay[from] == b {
        from
    } else {
        byte_index_from(hay, b, from + 1)
    }
}

/// What `byte_index_from` returns: the index is in range, holds `b` when it is
/// not the length, and nothing before it (at or after `from`) holds `b`.
pub proof fn lemma_byte_index_from(hay: Seq<u8>, b: u8, from: int)
    requires
        0 <= from <= hay.len(),
    ensures
        from <= byte_index_from(hay, b, from) <= hay.len(),
        byte_index_from(hay, b, from) < hay.len() ==> hay[byte_index_from(hay, b, from)] == b,
        forall|j: int| from <= j < byte_index_from(hay, b, from) ==> hay[j] != b,
    decreases hay.len() - from,
{
    if from < hay.len() && hay[from] != b {
        lemma_byte_index_from(hay, b, from + 1);
    }
}

/// An index `i` that holds `b` (or is the length) with no `b` before it (at
/// or after `from`) pins `byte_index_from` to `i`.
pub proof fn lemma_byte_index_pin(hay: Seq<u8>, b: u8, from: int, i: int)
    requires
        0 <= from <= i <= hay.len(),
        i == hay.len() || hay[i] == b,
        forall|j: int| from <= j < i ==> hay[j] != b,
    ensures
        byte_index_from(hay, b, from) == i,
    decreases i - from,
{
    if from < i {
        lemma_byte_index_pin(hay, b, from + 1, i);
    }
}

/// A match at `i` with no match between `from` and `i` pins the first
/// occurrence at or after `from` to `i`.
pub proof fn lemma_first_occurrence(hay: Seq<u8>, needle: Seq<u8>, from: int, i: int)
    requires
        0 <= from <= i,
        is_match_at(hay, needle, i),
        forall|j: int| from <= j < i ==> !is_match_at(hay, needle, j),
    ensures
        occurs_from(hay, needle, from),
        first_occurrence_from(hay, needle, from) == i,
    decreases i - from,
{
    assert(from <= i && is_match_at(hay, needle, i));
    if from < i {
        lemma_first_occurrence(hay, needle, from + 1, i);
    }
}

/// Where something occurs, the first occurrence really is a match.
pub proof fn lemma_first_occurrence_is_match(hay: Seq<u8>, needle: Seq<u8>, from: int)
    requires
        0 <= from <= hay.len(),
        occurs_from(hay, needle, from),
    ensures
        from <= first_occurrence_from(hay, needle, from),
        is_match_at(hay, needle, first_occurrence_from(hay, needle, from)),
    decreases hay.len() - from,
{
    if !is_match_at(hay, needle, from) {
        let i = choose|i: int| from <= i && is_match_at(hay, needle, i);
        assert(from + 1 <= i && is_match_at(hay, needle, i));
        lemma_first_occurrence_is_match(hay, needle, from + 1);
    }
}

/// An occurrence inside a window of `u` is an occurrence in `u`.
pub proof fn lemma_occurs_in_subrange(u: Seq<u8>, a: int, b: int, n: Seq<u8>)
    requires
        0 <= a <= b <= u.len(),
        occurs(u.subrange(a, b), n),
    ensures
        occurs(u, n),
{
    let sub = u.subrange(a, b);
    let i = choose|i: int| 0 <= i && is_match_at(sub, n, i);
    assert(is_match_at(u, n, a + i)) by {
        assert(u.subrange(a + i, a + i + n.len()) =~= sub.subrange(i, i + n.len()));
    }
    assert(0 <= a + i && is_match_at(u, n, a + i));
}

/// Index of the last byte equal to `b` strictly below `upto`; -1 when there
/// is none.
pub open spec fn rbyte_index_upto(h: Seq<u8>, b: u8, upto: int) -> int
    decreases upto,
{
    if upto <= 0 || upto > h.len() {
        -1
    } else if h[upto - 1] == b {
        upto - 1
    } else {
        rbyte_index_upto(h, b, upto - 1)
    }
}

/// The last index holding `b`, if any.
pub fn rfind_byte(hay: &[u8], b: u8) -> (r: Option<usize>)
    ensures
        match r {
            Some(i) => i == rbyte_index_upto(hay@, b, hay@.len() as int) && i < hay@.len()
                && hay@[i as int] == b,
            None => rbyte_index_upto(hay@, b, hay@.len() as int) == -1,
        },
{
    let mut e: usize = hay.len();
    while e > 0
        invariant
            0 <= e <= hay@.len(),
            rbyte_index_upto(hay@, b, hay@.len() as int) == rbyte_index_upto(hay@, b, e as int),
        decreases e,
    {
        if hay[e - 1] == b {
            return Some(e - 1);
        }
        e -= 1;
    }
    None
}

/// True when `b` is one of the ASCII whitespace bytes.
pub open spec fn is_ascii_ws(b: u8) -> bool {
    b == 0x20 || b == 0x09 || b == 0x0a || b == 0x0d || b == 0x0b || b == 0x0c
}

/// Index where the run of ASCII whitespace starting at `from` ends.
pub open spec fn ws_start(h: Seq<u8>, from: int) -> int
    decreases h.len() - from,
{
    if !(0 <= from < h.len()) {
        h.len() as int
    } else if is_ascii_ws(h[from]) {
        ws_start(h, from + 1)
    } else {
        from
    }
}

/// Index where the run of ASCII whitespace ending at `upto` begins.
pub open spec fn ws_end(h: Seq<u8>, upto: int) -> int
    decreases upto,
{
    if upto <= 0 || upto > h.len() {
        if upto > h.len() {
            h.len() as int
        } else {
            0
        }
    } else if is_ascii_ws(h[upto - 1]) {
        ws_end(h, upto - 1)
    } else {
        upto
    }
}

/// `h` with ASCII whitespace removed from both ends.
pub open spec fn trim_spec(h: Seq<u8>) -> Seq<u8> {
    let a = ws_start(h, 0);
    if a == h.len() {
        Seq::empty()
    } else {
        h.subrange(a, ws_end(h, h.len() as int))
    }
}

pub proof fn lemma_ws_start(h: Seq<u8>, from: int)
    requires
        0 <= from <= h.len(),
    ensures
        from <= ws_start(h, from) <= h.len(),
        ws_start(h, from) < h.len() ==> !is_ascii_ws(h[ws_start(h, from)]),
        forall|j: int| from <= j < ws_start(h, from) ==> is_ascii_ws(h[j]),
    decreases h.len() - from,
{
    if from < h.len() && is_ascii_ws(h[from]) {
        lemma_ws_start(h, from + 1);
    }
}

pub proof fn lemma_ws_end(h: Seq<u8>, upto: int)
    requires
        0 <= upto <= h.len(),
    ensures
        0 <= ws_end(h, upto) <= upto,
        ws_end(h, upto) > 0 ==> !is_ascii_ws(h[ws_end(h, upto) - 1]),
        forall|j: int| ws_end(h, upto) <= j < upto ==> is_ascii_ws(h[j]),
    decreases upto,
{
    if 0 < upto <= h.len() && is_ascii_ws(h[upto - 1]) {
        lemma_ws_end(h, upto - 1);
    }
}

/// True when `needle` matches `hay` at position `i`.
pub fn match_at(hay: &[u8], needle: &[u8], i: usize) -> (r: bool)
    ensures
        r == is_match_at(hay@, needle@, i as int),
{
    if i > hay.len() || hay.len() - i < needle.len() {
        return false;
    }
    let mut k: usize = 0;
    while k < needle.len()
        invariant
            0 <= k <= needle@.len(),
            i + needle@.len() <= hay@.len(),
            hay@.len() <= usize::MAX,
            forall|j: int| 0 <= j < k ==> hay@[i + j] == needle@[j],
        decreases needle@.len() - k,
    {
        if hay[i + k] != needle[k] {
            proof {
                let sub = hay@.subrange(i as int, i + needle@.len());
                assert(sub[k as int] == hay@[i + k]);
            }
            return false;
        }
        k += 1;
    }
    proof {
        assert(hay@.subrange(i as int, i + needle@.len()) =~= needle@);
    }
    true
}

/// True when `hay` starts with `needle`.
pub fn starts_with_bytes(hay: &[u8], needle: &[u8]) -> (r: bool)
    ensures
        r == is_prefix_of(needle@, hay@),
{
    match_at(hay, needle, 0)
}

/// True when `hay` ends with `needle`.
pub fn ends_with_bytes(hay: &[u8], needle: &[u8]) -> (r: bool)
    ensures
        r == is_suffix_of(needle@, hay@),
{
    if needle.len() > hay.len() {
        false
    } else {
        match_at(hay, needle, hay.len() - needle.len())
    }
}

/// First occurrence of `needle` in `hay` at or after `from`, if any.
pub fn find_from(hay: &[u8], needle: &[u8], from: usize) -> (r: Option<usize>)
    ensures
        match r {
            Some(i) => from <= i && is_match_at(hay@, needle@, i as int)
                && i == first_occurrence_from(hay@, needle@, from as int)
                && occurs_from(hay@, needle@, from as int),
            None => !occurs_from(hay@, needle@, from as int),
        },
{
    if from > hay.len() {
        return None;
    }
    if needle.len() == 0 {
        proof {
            assert(is_match_at(hay@, needle@, from as int)) by {
                assert(hay@.subrange(from as int, from as int) =~= needle@);
            }
            lemma_first_occurrence(hay@, needle@, from as int, from as int);
        }
        return Some(from);
    }
    if needle.len() > hay.len() {
        return None;
    }
    let last = hay.len() - needle.len();
    if from > last {
        return None;
    }
    let mut i: usize = from;
    while i <= last
        invariant
            from <= i <= last + 1,
            last == hay@.len() - needle@.len(),
            1 <= needle@.len() <= hay@.len(),
            hay@.len() <= usize::MAX,
            forall|j: int| from <= j < i ==> !is_match_at(hay@, needle@, j),
        decreases last + 1 - i,
    {
        if match_at(hay, needle, i) {
            proof {
                lemma_first_occurrence(hay@, needle@, from as int, i as int);
            }
            return Some(i);
        }
        i += 1;
    }
    None
}

/// True when the two byte slices hold the same bytes.
pub fn bytes_eq(a: &[u8], b: &[u8]) -> (r: bool)
    ensures
        r == (a@ == b@),
{
    if a.len() != b.len() {
        return false;
    }
    let r = match_at(a, b, 0);
    proof {
        if r {
            assert(a@.subrange(0, b@.len() as int) =~= a@);
        } else {
            assert(a@ != b@) by {
                if a@ == b@ {
                    assert(a@.subrange(0, b@.len() as int) =~= b@);
                }
            }
        }
    }
    r
}

/// True when `needle` occurs anywhere in `hay`.
pub fn contains_bytes(hay: &[u8], needle: &[u8]) -> (r: bool)
    ensures
        r == occurs(hay@, needle@),
{
    find_from(hay, needle, 0).is_some()
}

/// First index holding `b` at or after `from`; `hay.len()` when absent.
pub fn find_byte_from(hay: &[u8], b: u8, from: usize) -> (r: usize)
    requires
        from <= hay@.len(),
    ensures
        r == byte_index_from(hay@, b, from as int),
{
    let mut i: usize = from;
    while i < hay.len()
        invariant
            from <= i <= hay@.len(),
            byte_index_from(hay@, b, from as int) == byte_index_from(hay@, b, i as int),
        decreases hay@.len() - i,
    {
        if hay[i] == b {
            return i;
        }
        i += 1;
    }
    i
}

/// Appends one character to a string.
///
/// Relies on std's String::push: it appends exactly the given character.
#[verifier::external_body]
pub(crate) fn push_char(s: &mut String, c: char)
    ensures
        final(s)@ == old(s)@ + seq![c],
{
    s.push(c);
}

/// True when `b` is ASCII whitespace.
pub fn is_ws_byte(b: u8) -> (r: bool)
    ensures
        r == is_ascii_ws(b),
{
    b == 0x20 || b == 0x09 || b == 0x0a || b == 0x0d || b == 0x0b || b == 0x0c
}

/// A position that is the end of the bytes or holds a non-continuation byte
/// is a character boundary.
pub proof fn lemma_non_continuation_is_boundary(bytes: Seq<u8>, i: int)
    requires
        valid_utf8(bytes),
        0 <= i <= bytes.len(),
        i == bytes.len() || !is_continuation_byte(bytes[i]),
    ensures
        is_char_boundary(bytes, i),
{
    if i == 0 || i == bytes.len() {
        is_char_boundary_start_end_of_seq(bytes);
    } else {
        is_char_boundary_iff_not_is_continuation_byte(bytes, i);
    }
}

/// A position preceded only by ASCII bytes is a character boundary.
pub proof fn lemma_ascii_run_boundary(bytes: Seq<u8>, a: int)
    requires
        valid_utf8(bytes),
        0 <= a <= bytes.len(),
        forall|j: int| 0 <= j < a ==> bytes[j] < 0x80,
    ensures
        is_char_boundary(bytes, a),
    decreases a,
{
    if a > 0 {
        assert(valid_first_scalar(bytes));
        assert(is_leading_byte_width_1(bytes[0]));
        assert(length_of_first_scalar(bytes) == 1);
        let tail = pop_first_scalar(bytes);
        assert(tail =~= bytes.subrange(1, bytes.len() as int));
        lemma_ascii_run_boundary(tail, a - 1);
    }
}

/// The byte after an ASCII byte never continues a multi-byte encoding.
pub proof fn lemma_after_ascii_byte(bytes: Seq<u8>, i: int)
    requires
        valid_utf8(bytes),
        1 <= i <= bytes.len(),
        bytes[i - 1] < 0x80,
    ensures
        i == bytes.len() || !is_continuation_byte(bytes[i]),
    decreases bytes.len(),
{
    assert(valid_first_scalar(bytes));
    let w = length_of_first_scalar(bytes);
    let tail = pop_first_scalar(bytes);
    assert(tail =~= bytes.subrange(w, bytes.len() as int));
    if i - 1 == 0 {
        assert(is_leading_byte_width_1(bytes[0]));
        assert(w == 1);
        if i < bytes.len() {
            assert(valid_utf8(tail));
            assert(tail.len() > 0);
            assert(valid_first_scalar(tail));
            assert(tail[0] == bytes[i]);
            assert(!is_continuation_byte(bytes[i]));
        }
    } else {
        assert(1 <= w <= 4);
        assert(forall|k: int| 1 <= k < w ==> is_continuation_byte(bytes[k]));
        assert(i - 1 >= w);
        lemma_after_ascii_byte(tail, i - w);
    }
}

/// Splits `s` at byte index `mid`, which must be the start, the end, or a
/// non-continuation byte of the UTF-8 encoding.
pub fn split_str_at<'a>(s: &'a str, mid: usize) -> (r: (&'a str, &'a str))
    requires
        mid <= s.spec_bytes().len(),
        mid == s.spec_bytes().len() || !is_continuation_byte(s.spec_bytes()[mid as int]),
    ensures
        r.0.spec_bytes() == s.spec_bytes().subrange(0, mid as int),
        r.1.spec_bytes() == s.spec_bytes().subrange(mid as int, s.spec_bytes().len() as int),
        s@ == r.0@ + r.1@,
{
    proof {
        encode_utf8_valid_utf8(s@);
        lemma_non_continuation_is_boundary(s.spec_bytes(), mid as int);
        vstd::utf8::decode_utf8_split(s.spec_bytes(), mid as int);
        vstd::utf8::encode_utf8_decode_utf8(s@);
    }
    let parts = s.split_at(mid);
    proof {
        vstd::utf8::encode_utf8_decode_utf8(parts.0@);
        vstd::utf8::encode_utf8_decode_utf8(parts.1@);
    }
    parts
}

/// `s` with ASCII whitespace removed from both ends.
pub fn trim_ascii<'a>(s: &'a str) -> (r: &'a str)
    ensures
        r.spec_bytes() == trim_spec(s.spec_bytes()),
{
    let bytes = s.as_bytes();
    let n = bytes.len();
    let mut a: usize = 0;
    while a < n && is_ws_byte(bytes[a])
        invariant
            0 <= a <= bytes@.len(),
            n == bytes@.len(),
            bytes@ == s.spec_bytes(),
            ws_start(bytes@, 0) == ws_start(bytes@, a as int),
        decreases n - a,
    {
        a += 1;
    }
    proof {
        lemma_ws_start(bytes@, 0);
    }
    if a == n {
        proof {
            reveal_strlit("");
            assert(""@ =~= Seq::<char>::empty());
            assert("".spec_bytes() =~= Seq::<u8>::empty());
            assert(trim_spec(s.spec_bytes()) =~= Seq::<u8>::empty());
        }
        return "";
    }
    assert(!is_ascii_ws(bytes@[a as int]));
    let mut e: usize = n;
    while e > a && is_ws_byte(bytes[e - 1])
        invariant
            a < e <= bytes@.len(),
            a < bytes@.len(),
            n == bytes@.len(),
            bytes@ == s.spec_bytes(),
            !is_ascii_ws(bytes@[a as int]),
            ws_end(bytes@, n as int) == ws_end(bytes@, e as int),
        decreases e,
    {
        proof {
            if e - 1 == a {
                assert(is_ascii_ws(bytes@[a as int]));
            }
        }
        e -= 1;
    }
    assert(ws_end(bytes@, n as int) == e as int);
    proof {
        encode_utf8_valid_utf8(s@);
        lemma_ascii_run_boundary(s.spec_bytes(), a as int);
        assert(forall|j: int| 0 <= j < a ==> is_ascii_ws(#[trigger] bytes@[j]) && bytes@[j] < 0x80);
        is_char_boundary_iff_not_is_continuation_byte(s.spec_bytes(), a as int);
    }
    let parts = split_str_at(s, a);
    let tail = parts.1;
    proof {
        let tb = tail.spec_bytes();
        encode_utf8_valid_utf8(tail@);
        lemma_ws_end(bytes@, n as int);
        if (e - a) < tb.len() {
            assert(tb[(e - a) as int] == bytes@[e as int]);
            assert(is_ascii_ws(bytes@[e as int]));
            assert(!is_continuation_byte(tb[(e - a) as int]));
        }
    }
    let r = split_str_at(tail, e - a).0;
    proof {
        assert(r.spec_bytes() =~= bytes@.subrange(a as int, e as int));
        assert(trim_spec(s.spec_bytes()) == bytes@.subrange(a as int, e as int));
    }
    r
}

} // verus!
