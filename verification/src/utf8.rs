//! Lossy decoding of bytes as UTF-8.

use vstd::prelude::*;
use vstd::utf8::*;

verus! {

/// `char::from_u32` gives the character with the scalar value `i`, and `None`
/// where `i` is no scalar value.
pub assume_specification[ char::from_u32 ](i: u32) -> (c: Option<char>)
    ensures
        is_scalar(i) ==> c == Some(i as char),
        !is_scalar(i) ==> c is None,
;

/// The character that stands for what could not be decoded.
pub const REPLACEMENT: char = '\u{fffd}';

/// Whether `b1` may follow the leading byte `b0` of a three or four byte
/// character: every other second byte is overlong, a surrogate, beyond the last
/// scalar value, or no continuation at all.
pub open spec fn second_byte_fits(b0: u8, b1: u8) -> bool {
    ||| b0 == 0xe0 && 0xa0 <= b1 <= 0xbf
    ||| b0 == 0xed && 0x80 <= b1 <= 0x9f
    ||| (0xe1 <= b0 <= 0xec || 0xee <= b0 <= 0xef) && 0x80 <= b1 <= 0xbf
    ||| b0 == 0xf0 && 0x90 <= b1 <= 0xbf
    ||| 0xf1 <= b0 <= 0xf3 && 0x80 <= b1 <= 0xbf
    ||| b0 == 0xf4 && 0x80 <= b1 <= 0x8f
}

/// How many bytes one replacement character stands for, where `bytes` begins
/// with no whole character: as many as could still have become one, and at
/// least one.
pub open spec fn broken_len(bytes: Seq<u8>) -> int {
    if bytes.len() >= 2 && second_byte_fits(bytes[0], bytes[1]) {
        if bytes.len() >= 3 && bytes[0] >= 0xf0 && is_continuation_byte(bytes[2]) {
            3
        } else {
            2
        }
    } else {
        1
    }
}

/// `bytes` decoded as UTF-8, with one replacement character for each maximal
/// ill-formed stretch.
pub open spec fn lossy(bytes: Seq<u8>) -> Seq<char>
    decreases bytes.len(),
{
    if bytes.len() == 0 {
        seq![]
    } else if valid_first_scalar(bytes) {
        seq![decode_first_scalar(bytes) as char] + lossy(pop_first_scalar(bytes))
    } else {
        seq![REPLACEMENT] + lossy(bytes.skip(broken_len(bytes)))
    }
}

/// A codepoint of two or three bytes is small enough to be a scalar value.
proof fn lemma_codepoint_bounds(b0: u8, b1: u8, b2: u8)
    by (bit_vector)
    ensures
        codepoint_width_1(b0) <= 0x7f,
        codepoint_width_2(b0, b1) <= 0x7ff,
        codepoint_width_3(b0, b1, b2) <= 0xffff,
{
}

/// The character at the front of `buf[at..]` and its length in bytes.
fn first_char(buf: &[u8], at: usize) -> (r: Option<(char, usize)>)
    requires
        at < buf@.len(),
    ensures
        match r {
            Some((c, n)) => {
                &&& valid_first_scalar(buf@.skip(at as int))
                &&& c == decode_first_scalar(buf@.skip(at as int)) as char
                &&& n == length_of_first_scalar(buf@.skip(at as int))
                &&& at + n <= buf@.len()
            },
            None => !valid_first_scalar(buf@.skip(at as int)),
        },
{
    let left: usize = buf.len() - at;
    let ghost rest = buf@.skip(at as int);
    let b0: u8 = buf[at];
    let b1: u8 = if left >= 2 { buf[at + 1] } else { 0 };
    let b2: u8 = if left >= 3 { buf[at + 2] } else { 0 };
    let b3: u8 = if left >= 4 { buf[at + 3] } else { 0 };
    proof {
        assert(rest[0] == b0);
        assert(left >= 2 ==> rest[1] == b1);
        assert(left >= 3 ==> rest[2] == b2);
        assert(left >= 4 ==> rest[3] == b3);
        lemma_codepoint_bounds(b0, b1, b2);
    }
    let (code, len): (u32, usize) = if b0 <= 0x7f {
        ((b0 & 0x7f) as u32, 1)
    } else if 0xc0 <= b0 && b0 <= 0xdf {
        ((((b0 & 0x1f) as u32) << 6) | ((b1 & 0x3f) as u32), 2)
    } else if 0xe0 <= b0 && b0 <= 0xef {
        (
            (((b0 & 0x0f) as u32) << 12) | (((b1 & 0x3f) as u32) << 6) | ((b2 & 0x3f) as u32),
            3,
        )
    } else if 0xf0 <= b0 && b0 <= 0xf7 {
        (
            (((b0 & 0x07) as u32) << 18) | (((b1 & 0x3f) as u32) << 12) | (((b2 & 0x3f) as u32)
                << 6) | ((b3 & 0x3f) as u32),
            4,
        )
    } else {
        return None;
    };
    if len > left || (len >= 2 && !(0x80 <= b1 && b1 <= 0xbf)) || (len >= 3 && !(0x80 <= b2 && b2
        <= 0xbf)) || (len == 4 && !(0x80 <= b3 && b3 <= 0xbf)) {
        return None;
    }
    if (len == 2 && code < 0x80) || (len == 3 && code < 0x800) || (len == 4 && (code < 0x10000
        || code > 0x10ffff)) || (0xd800 <= code && code <= 0xdfff) {
        return None;
    }
    match char::from_u32(code) {
        Some(c) => Some((c, len)),
        None => None,
    }
}

/// The number of bytes that the replacement character at `buf[at..]` stands for.
fn broken_length(buf: &[u8], at: usize) -> (n: usize)
    requires
        at < buf@.len(),
    ensures
        n == broken_len(buf@.skip(at as int)),
        1 <= n <= buf@.len() - at,
{
    let left: usize = buf.len() - at;
    let ghost rest = buf@.skip(at as int);
    let b0: u8 = buf[at];
    proof {
        assert(rest[0] == b0);
    }
    if left < 2 {
        return 1;
    }
    let b1: u8 = buf[at + 1];
    proof {
        assert(rest[1] == b1);
    }
    let fits: bool = if b0 == 0xe0 {
        0xa0 <= b1 && b1 <= 0xbf
    } else if b0 == 0xed {
        0x80 <= b1 && b1 <= 0x9f
    } else if b0 == 0xf0 {
        0x90 <= b1 && b1 <= 0xbf
    } else if b0 == 0xf4 {
        0x80 <= b1 && b1 <= 0x8f
    } else {
        0xe1 <= b0 && b0 <= 0xf3 && 0x80 <= b1 && b1 <= 0xbf
    };
    if !fits {
        return 1;
    }
    if left >= 3 && b0 >= 0xf0 {
        let b2: u8 = buf[at + 2];
        proof {
            assert(rest[2] == b2);
        }
        if 0x80 <= b2 && b2 <= 0xbf {
            return 3;
        }
    }
    2
}

/// Decodes `buf` as UTF-8. Each maximal ill-formed stretch of bytes becomes one
/// replacement character, and nothing is dropped.
pub fn utf8_lossy(buf: &[u8]) -> (r: String)
    ensures
        r@ == lossy(buf@),
{
    let mut out = String::new();
    let mut at: usize = 0;
    proof {
        assert(buf@.skip(0) =~= buf@);
        assert(out@ + lossy(buf@) =~= lossy(buf@));
    }
    while at < buf.len()
        invariant
            at <= buf@.len(),
            lossy(buf@) == out@ + lossy(buf@.skip(at as int)),
        decreases buf@.len() - at,
    {
        let ghost before = out@;
        let ghost rest = buf@.skip(at as int);
        match first_char(buf, at) {
            Some((c, n)) => {
                out.push(c);
                at = at + n;
                proof {
                    assert(pop_first_scalar(rest) =~= buf@.skip(at as int));
                    assert(out@ + lossy(buf@.skip(at as int)) =~= before + lossy(rest));
                }
            },
            None => {
                let n: usize = broken_length(buf, at);
                out.push(REPLACEMENT);
                at = at + n;
                proof {
                    assert(rest.skip(n as int) =~= buf@.skip(at as int));
                    assert(out@ + lossy(buf@.skip(at as int)) =~= before + lossy(rest));
                }
            },
        }
    }
    proof {
        assert(buf@.skip(at as int) =~= Seq::<u8>::empty());
        assert(out@ + lossy(buf@.skip(at as int)) =~= out@);
    }
    out
}

/// Well-formed UTF-8 is decoded without loss.
pub proof fn law_lossy_decodes_valid(bytes: Seq<u8>)
    requires
        valid_utf8(bytes),
    ensures
        lossy(bytes) == decode_utf8(bytes),
    decreases bytes.len(),
{
    if bytes.len() > 0 {
        law_lossy_decodes_valid(pop_first_scalar(bytes));
    }
}

/// Decoding what a text was encoded to gives the text back.
pub proof fn law_lossy_reads_back(text: Seq<char>)
    ensures
        lossy(encode_utf8(text)) == text,
{
    encode_utf8_valid_utf8(text);
    encode_utf8_decode_utf8(text);
    law_lossy_decodes_valid(encode_utf8(text));
}

/// Behind well-formed UTF-8, bytes are decoded as they would be by themselves.
pub proof fn law_lossy_after_valid_front(front: Seq<u8>, rest: Seq<u8>)
    requires
        valid_utf8(front),
    ensures
        lossy(front + rest) == decode_utf8(front) + lossy(rest),
    decreases front.len(),
{
    let all = front + rest;
    if front.len() == 0 {
        assert(all =~= rest);
        assert(decode_utf8(front) + lossy(rest) =~= lossy(rest));
    } else {
        let n = length_of_first_scalar(front);
        let later = pop_first_scalar(front);
        assert(all[0] == front[0]);
        assert(valid_first_scalar(all));
        assert(pop_first_scalar(all) =~= later + rest);
        law_lossy_after_valid_front(later, rest);
        assert(lossy(all) =~= decode_utf8(front) + lossy(rest));
    }
}

/// A NUL byte stands for itself, and keeps what is before it and what is behind
/// it apart: each is decoded as it would be by itself.
pub proof fn law_lossy_splits_at_nul(before: Seq<u8>, after: Seq<u8>)
    ensures
        lossy(before + seq![0u8] + after) == lossy(before) + seq!['\0'] + lossy(after),
    decreases before.len(),
{
    let all = before + seq![0u8] + after;
    if before.len() == 0 {
        assert(all[0] == 0);
        lemma_width_1_is_identity(0);
        assert(valid_first_scalar(all));
        assert(pop_first_scalar(all) =~= after);
        assert(lossy(all) =~= lossy(before) + seq!['\0'] + lossy(after));
    } else {
        let k = before.len() as int;
        assert(all[k] == 0);
        assert(forall|i: int| 0 <= i < k ==> all[i] == before[i]);
        assert(valid_first_scalar(all) == valid_first_scalar(before));
        let n = if valid_first_scalar(before) {
            length_of_first_scalar(before)
        } else {
            broken_len(before)
        };
        let later = before.skip(n);
        assert(pop_first_scalar(before) =~= before.skip(length_of_first_scalar(before)));
        if valid_first_scalar(before) {
            assert(pop_first_scalar(all) =~= later + seq![0u8] + after);
        } else {
            assert(broken_len(all) == n);
            assert(all.skip(n) =~= later + seq![0u8] + after);
        }
        law_lossy_splits_at_nul(later, after);
        assert(lossy(all) =~= lossy(before) + seq!['\0'] + lossy(after));
    }
}

/// Decoding yields NUL characters only, exactly when there are only NUL bytes.
pub proof fn law_lossy_keeps_nul(bytes: Seq<u8>)
    ensures
        (forall|i: int| 0 <= i < lossy(bytes).len() ==> lossy(bytes)[i] == '\0') <==> (forall|i: int|
            0 <= i < bytes.len() ==> bytes[i] == 0),
    decreases bytes.len(),
{
    if bytes.len() > 0 {
        let text = lossy(bytes);
        let n = if valid_first_scalar(bytes) {
            length_of_first_scalar(bytes)
        } else {
            broken_len(bytes)
        };
        let rest = bytes.skip(n);
        assert(pop_first_scalar(bytes) =~= bytes.skip(length_of_first_scalar(bytes)));
        law_lossy_keeps_nul(rest);
        assert(text.drop_first() =~= lossy(rest));
        if valid_first_scalar(bytes) {
            lemma_nul_is_one_byte(bytes);
        } else {
            assert(bytes[0] != 0);
            assert(text[0] == REPLACEMENT);
        }
        if forall|i: int| 0 <= i < text.len() ==> text[i] == '\0' {
            assert(text[0] == '\0');
            assert forall|i: int| 0 <= i < lossy(rest).len() implies lossy(rest)[i] == '\0' by {
                assert(text[i + 1] == lossy(rest)[i]);
            }
            assert forall|i: int| 0 <= i < bytes.len() implies bytes[i] == 0 by {
                if i > 0 {
                    assert(bytes[i] == rest[i - 1]);
                }
            }
        }
        if forall|i: int| 0 <= i < bytes.len() ==> bytes[i] == 0 {
            assert(bytes[0] == 0);
            assert forall|i: int| 0 <= i < rest.len() implies rest[i] == 0 by {
                assert(rest[i] == bytes[i + n]);
            }
            assert forall|i: int| 0 <= i < text.len() implies text[i] == '\0' by {
                if i > 0 {
                    assert(text[i] == lossy(rest)[i - 1]);
                }
            }
        }
    }
}

/// Only the NUL byte is the encoding of the NUL character.
proof fn lemma_nul_is_one_byte(bytes: Seq<u8>)
    requires
        bytes.len() > 0,
        valid_first_scalar(bytes),
    ensures
        (decode_first_scalar(bytes) as char == '\0') == (bytes[0] == 0),
        bytes[0] == 0 ==> length_of_first_scalar(bytes) == 1,
{
    let b0 = bytes[0];
    let b1 = if bytes.len() > 1 {
        bytes[1]
    } else {
        0
    };
    let b2 = if bytes.len() > 2 {
        bytes[2]
    } else {
        0
    };
    lemma_codepoint_bounds(b0, b1, b2);
    if is_leading_byte_width_1(b0) {
        lemma_width_1_is_identity(b0);
    }
}

proof fn lemma_width_1_is_identity(b0: u8)
    by (bit_vector)
    requires
        is_leading_byte_width_1(b0),
    ensures
        codepoint_width_1(b0) == b0,
{
}

/// Whether the bytes `p` are the beginning, but not the whole, of `c` encoded.
pub open spec fn starts(c: char, p: Seq<u8>) -> bool {
    &&& p.len() < encode_scalar(c as u32).len()
    &&& p == encode_scalar(c as u32).take(p.len() as int)
}

/// Whether the bytes `p` are the beginning, but not the whole, of a character.
pub open spec fn starts_char(p: Seq<u8>) -> bool {
    exists|c: char| starts(c, p)
}

/// A replacement character stands for the longest stretch that is the beginning
/// of a character, or for a single byte where there is none.
pub proof fn law_replacement_is_maximal(bytes: Seq<u8>)
    requires
        bytes.len() > 0,
        !valid_first_scalar(bytes),
    ensures
        1 <= broken_len(bytes) <= bytes.len(),
        broken_len(bytes) > 1 ==> starts_char(bytes.take(broken_len(bytes))),
        forall|m: int|
            broken_len(bytes) < m <= bytes.len() ==> !starts_char(#[trigger] bytes.take(m)),
{
    let n = broken_len(bytes);
    let b0 = bytes[0];
    if n == 2 {
        let p = bytes.take(2);
        if b0 < 0xf0 {
            lemma_witness_width_3(b0, bytes[1]);
            let v = (((b0 & 0x0f) as u32) << 12) | (((bytes[1] & 0x3f) as u32) << 6);
            assert(encode_scalar((v as char) as u32).take(2) =~= p);
            assert(starts(v as char, p));
        } else {
            lemma_witness_width_4(b0, bytes[1], 0x80);
            let v = (((b0 & 0x07) as u32) << 18) | (((bytes[1] & 0x3f) as u32) << 12) | (((0x80u8
                & 0x3f) as u32) << 6);
            assert(encode_scalar((v as char) as u32).take(2) =~= p);
            assert(starts(v as char, p));
        }
    } else if n == 3 {
        let p = bytes.take(3);
        lemma_witness_width_4(b0, bytes[1], bytes[2]);
        let v = (((b0 & 0x07) as u32) << 18) | (((bytes[1] & 0x3f) as u32) << 12) | (((bytes[2]
            & 0x3f) as u32) << 6);
        assert(encode_scalar((v as char) as u32).take(3) =~= p);
            assert(starts(v as char, p));
    }
    assert forall|m: int| n < m <= bytes.len() implies !starts_char(#[trigger] bytes.take(m)) by {
        if starts_char(bytes.take(m)) {
            let c = choose|c: char| starts(c, bytes.take(m));
            char_is_scalar(c);
            let v = c as u32;
            let e = encode_scalar(v);
            assert(e.take(m)[0] == bytes[0]);
            assert(e.take(m)[1] == bytes[1]);
            if has_width_3_encoding(v) {
                lemma_second_byte_width_3(v);
            } else {
                lemma_second_byte_width_4(v);
                if m == 3 {
                    assert(e.take(m)[2] == bytes[2]);
                }
            }
        }
    }
}

proof fn lemma_witness_width_3(b0: u8, b1: u8)
    by (bit_vector)
    requires
        second_byte_fits(b0, b1),
        b0 < 0xf0,
    ensures
        ({
            let v = (((b0 & 0x0f) as u32) << 12) | (((b1 & 0x3f) as u32) << 6);
            &&& has_width_3_encoding(v)
            &&& leading_byte_width_3(v) == b0
            &&& second_last_continuation_byte(v) == b1
        }),
{
}

proof fn lemma_witness_width_4(b0: u8, b1: u8, b2: u8)
    by (bit_vector)
    requires
        second_byte_fits(b0, b1),
        b0 >= 0xf0,
        is_continuation_byte(b2),
    ensures
        ({
            let v = (((b0 & 0x07) as u32) << 18) | (((b1 & 0x3f) as u32) << 12) | (((b2
                & 0x3f) as u32) << 6);
            &&& has_width_4_encoding(v)
            &&& leading_byte_width_4(v) == b0
            &&& third_last_continuation_byte(v) == b1
            &&& second_last_continuation_byte(v) == b2
        }),
{
}

proof fn lemma_second_byte_width_3(v: u32)
    by (bit_vector)
    requires
        has_width_3_encoding(v),
    ensures
        second_byte_fits(leading_byte_width_3(v), second_last_continuation_byte(v)),
{
}

proof fn lemma_second_byte_width_4(v: u32)
    by (bit_vector)
    requires
        has_width_4_encoding(v),
    ensures
        second_byte_fits(leading_byte_width_4(v), third_last_continuation_byte(v)),
        is_continuation_byte(second_last_continuation_byte(v)),
        leading_byte_width_4(v) >= 0xf0,
{
}

/// Where no whole character stands in front, one U+FFFD takes the place of the
/// longest stretch that could have become a character, or of a single byte where
/// there is none; the bytes behind are decoded as they would be by themselves.
pub proof fn law_broken_stretch_is_replaced(bytes: Seq<u8>)
    requires
        bytes.len() > 0,
        !valid_first_scalar(bytes),
    ensures
        exists|n: int|
            {
                &&& 1 <= n <= bytes.len()
                &&& n == 1 || starts_char(bytes.take(n))
                &&& forall|m: int| n < m <= bytes.len() ==> !starts_char(#[trigger] bytes.take(m))
                &&& lossy(bytes) == seq!['\u{fffd}'] + lossy(#[trigger] bytes.skip(n))
            },
{
    law_replacement_is_maximal(bytes);
    let n = broken_len(bytes);
    assert(lossy(bytes) == seq!['\u{fffd}'] + lossy(bytes.skip(n)));
}

} // verus!
