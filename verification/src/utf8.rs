//! Incremental decoding of UTF-8.

use vstd::prelude::*;
use vstd::utf8::*;

verus! {

/// `char::from_u32` of the standard library: the character with this code,
/// where the code is a Unicode scalar value.
pub assume_specification[ char::from_u32 ](i: u32) -> (r: Option<char>)
    ensures
        r == (if is_scalar(i) {
            Some(i as char)
        } else {
            None
        }),
;

/// What stands at the front of a run of bytes.
pub enum Front {
    /// A character and the number of bytes that encode it.
    Char(char, usize),
    /// The bytes end inside a character.
    Incomplete,
    /// No character begins with these bytes; so many of them are to blame.
    Invalid(usize),
}

/// No bytes that could follow make the front of `bytes` a character.
pub open spec fn hopeless(bytes: Seq<u8>) -> bool {
    forall|t: Seq<u8>| !valid_first_scalar(#[trigger] (bytes + t))
}

proof fn lemma_two_overlong(b0: u8, b1: u8)
    by (bit_vector)
    requires
        b0 == 0xc0 || b0 == 0xc1,
    ensures
        ((((b0 & 0x1F) as u32) << 6) | ((b1 & 0x3f) as u32)) < 0x80,
{
}

proof fn lemma_two_range(b0: u8, b1: u8)
    by (bit_vector)
    requires
        0xc2 <= b0 <= 0xdf,
    ensures
        0x80 <= ((((b0 & 0x1F) as u32) << 6) | ((b1 & 0x3f) as u32)) <= 0x7ff,
{
}

proof fn lemma_three_range(b0: u8, b1: u8, b2: u8)
    by (bit_vector)
    requires
        0xe0 <= b0 <= 0xef,
        0x80 <= b1 <= 0xbf,
        0x80 <= b2 <= 0xbf,
    ensures
        ({
            let cp = (((b0 & 0x0F) as u32) << 12) | (((b1 & 0x3f) as u32) << 6) | ((b2
                & 0x3f) as u32);
            &&& cp <= 0xffff
            &&& (cp < 0x800 <==> (b0 == 0xe0 && b1 < 0xa0))
            &&& ((0xD800 <= cp && cp <= 0xDFFF) <==> (b0 == 0xed && b1 >= 0xa0))
        }),
{
}

proof fn lemma_four_range(b0: u8, b1: u8, b2: u8, b3: u8)
    by (bit_vector)
    requires
        0xf0 <= b0 <= 0xf7,
        0x80 <= b1 <= 0xbf,
        0x80 <= b2 <= 0xbf,
        0x80 <= b3 <= 0xbf,
    ensures
        ({
            let cp = (((b0 & 0x07) as u32) << 18) | (((b1 & 0x3f) as u32) << 12) | (((b2
                & 0x3f) as u32) << 6) | ((b3 & 0x3f) as u32);
            &&& (cp < 0x10000 <==> (b0 == 0xf0 && b1 < 0x90))
            &&& (cp > 0x10ffff <==> (b0 > 0xf4 || (b0 == 0xf4 && b1 >= 0x90)))
        }),
{
}

/// The second byte that a leading byte of three or four bytes allows.
pub open spec fn second_allowed(b0: u8, b1: u8) -> bool {
    &&& is_continuation_byte(b1)
    &&& b0 == 0xe0 ==> b1 >= 0xa0
    &&& b0 == 0xed ==> b1 < 0xa0
    &&& b0 == 0xf0 ==> b1 >= 0x90
    &&& b0 == 0xf4 ==> b1 < 0x90
}

proof fn lemma_second_needed(bytes: Seq<u8>)
    requires
        bytes.len() >= 2,
        0xc0 <= bytes[0],
        !second_allowed(bytes[0], bytes[1]) || bytes[0] > 0xf4,
    ensures
        hopeless(bytes),
{
    assert forall|t: Seq<u8>| !valid_first_scalar(#[trigger] (bytes + t)) by {
        let s = bytes + t;
        assert(s[0] == bytes[0] && s[1] == bytes[1]);
        if valid_first_scalar(s) {
            if is_leading_byte_width_3(s[0]) {
                lemma_three_range(s[0], s[1], s[2]);
            } else if is_leading_byte_width_4(s[0]) {
                lemma_four_range(s[0], s[1], s[2], s[3]);
            }
        }
    }
}

proof fn lemma_bad_lead(bytes: Seq<u8>)
    requires
        bytes.len() >= 1,
        0x80 <= bytes[0] < 0xc2 || bytes[0] > 0xf4,
    ensures
        hopeless(bytes),
{
    assert forall|t: Seq<u8>| !valid_first_scalar(#[trigger] (bytes + t)) by {
        let s = bytes + t;
        assert(s[0] == bytes[0]);
        if valid_first_scalar(s) {
            if is_leading_byte_width_2(s[0]) {
                lemma_two_overlong(s[0], s[1]);
            } else if is_leading_byte_width_4(s[0]) {
                lemma_four_range(s[0], s[1], s[2], s[3]);
            }
        }
    }
}

proof fn lemma_later_needed(bytes: Seq<u8>, k: int)
    requires
        1 <= k < bytes.len(),
        k == 1 ==> bytes[0] >= 0xc0,
        k == 2 ==> bytes[0] >= 0xe0,
        k == 3 ==> bytes[0] >= 0xf0,
        k <= 3,
        !is_continuation_byte(bytes[k]),
    ensures
        hopeless(bytes),
{
    assert forall|t: Seq<u8>| !valid_first_scalar(#[trigger] (bytes + t)) by {
        let s = bytes + t;
        assert(s[0] == bytes[0] && s[k] == bytes[k]);
    }
}

fn continuation(b: u8) -> (r: bool)
    ensures
        r == is_continuation_byte(b),
{
    0x80 <= b && b <= 0xbf
}

/// Reads the character at the front of `bytes[at..]`.
pub fn front(bytes: &[u8], at: usize) -> (r: Front)
    requires
        at < bytes@.len(),
    ensures
        match r {
            Front::Char(c, n) => {
                let rest = bytes@.skip(at as int);
                &&& valid_first_scalar(rest)
                &&& c == decode_first_scalar(rest) as char
                &&& n == length_of_first_scalar(rest)
                &&& 1 <= n <= 4
                &&& at + n <= bytes@.len()
            },
            Front::Incomplete => {
                &&& !valid_first_scalar(bytes@.skip(at as int))
                &&& !hopeless(bytes@.skip(at as int))
            },
            Front::Invalid(n) => hopeless(bytes@.skip(at as int)) && 1 <= n <= 3,
        },
{
    let ghost rest = bytes@.skip(at as int);
    let left: usize = bytes.len() - at;
    let b0: u8 = bytes[at];
    assert(rest[0] == b0);
    if b0 < 0x80 {
        assert((b0 & 0x7F) as u32 == b0 as u32) by (bit_vector)
            requires
                b0 < 0x80,
        ;
        let c: char = b0 as char;
        return Front::Char(c, 1);
    }
    if b0 < 0xc2 || b0 > 0xf4 {
        proof {
            lemma_bad_lead(rest);
        }
        return Front::Invalid(1);
    }
    if left < 2 {
        proof {
            lemma_incomplete(rest);
        }
        return Front::Incomplete;
    }
    let b1: u8 = bytes[at + 1];
    assert(rest[1] == b1);
    if !continuation(b1) || (b0 == 0xe0 && b1 < 0xa0) || (b0 == 0xed && b1 >= 0xa0) || (b0 == 0xf0
        && b1 < 0x90) || (b0 == 0xf4 && b1 >= 0x90) {
        proof {
            lemma_second_needed(rest);
        }
        return Front::Invalid(1);
    }
    if b0 < 0xe0 {
        let cp: u32 = (((b0 & 0x1F) as u32) << 6) | ((b1 & 0x3f) as u32);
        proof {
            lemma_two_range(b0, b1);
        }
        assert(is_scalar(cp));
        return match char::from_u32(cp) {
            Some(c) => Front::Char(c, 2),
            None => Front::Invalid(1),
        };
    }
    if left < 3 {
        proof {
            lemma_incomplete(rest);
        }
        return Front::Incomplete;
    }
    let b2: u8 = bytes[at + 2];
    assert(rest[2] == b2);
    if !continuation(b2) {
        proof {
            lemma_later_needed(rest, 2);
        }
        return Front::Invalid(2);
    }
    if b0 < 0xf0 {
        let cp: u32 = (((b0 & 0x0F) as u32) << 12) | (((b1 & 0x3f) as u32) << 6) | ((b2
            & 0x3f) as u32);
        proof {
            lemma_three_range(b0, b1, b2);
        }
        assert(is_scalar(cp));
        return match char::from_u32(cp) {
            Some(c) => Front::Char(c, 3),
            None => Front::Invalid(1),
        };
    }
    if left < 4 {
        proof {
            lemma_incomplete(rest);
        }
        return Front::Incomplete;
    }
    let b3: u8 = bytes[at + 3];
    assert(rest[3] == b3);
    if !continuation(b3) {
        proof {
            lemma_later_needed(rest, 3);
        }
        return Front::Invalid(3);
    }
    let cp: u32 = (((b0 & 0x07) as u32) << 18) | (((b1 & 0x3f) as u32) << 12) | (((b2
        & 0x3f) as u32) << 6) | ((b3 & 0x3f) as u32);
    proof {
        lemma_four_range(b0, b1, b2, b3);
    }
    assert(is_scalar(cp));
    match char::from_u32(cp) {
        Some(c) => Front::Char(c, 4),
        None => Front::Invalid(1),
    }
}

/// A cut character can still be completed.
proof fn lemma_incomplete(bytes: Seq<u8>)
    requires
        1 <= bytes.len() < 4,
        0xc2 <= bytes[0] <= 0xf4,
        bytes.len() >= 2 ==> bytes[0] >= 0xe0 && second_allowed(bytes[0], bytes[1]),
        bytes.len() >= 3 ==> bytes[0] >= 0xf0 && is_continuation_byte(bytes[2]),
    ensures
        !valid_first_scalar(bytes),
        !hopeless(bytes),
{
    let b0 = bytes[0];
    let b1: u8 = if bytes.len() >= 2 {
        bytes[1]
    } else if b0 == 0xe0 {
        0xa0
    } else if b0 == 0xf0 {
        0x90
    } else {
        0x80
    };
    let b2: u8 = if bytes.len() >= 3 {
        bytes[2]
    } else {
        0x80
    };
    let all = seq![b0, b1, b2, 0x80u8];
    let t = all.skip(bytes.len() as int);
    assert(bytes + t =~= all);
    lemma_two_range_if(b0, b1);
    if 0xe0 <= b0 <= 0xef {
        lemma_three_range(b0, b1, b2);
    } else if 0xf0 <= b0 {
        lemma_four_range(b0, b1, b2, 0x80);
    }
    assert(valid_first_scalar(bytes + t));
}

proof fn lemma_two_range_if(b0: u8, b1: u8)
    ensures
        0xc2 <= b0 <= 0xdf ==> 0x80 <= codepoint_width_2(b0, b1) <= 0x7ff,
{
    if 0xc2 <= b0 <= 0xdf {
        lemma_two_range(b0, b1);
    }
}

/// Decoding goes over two valid runs one after the other.
pub proof fn lemma_decode_concat(a: Seq<u8>, b: Seq<u8>)
    requires
        valid_utf8(a),
        valid_utf8(b),
    ensures
        valid_utf8(a + b),
        decode_utf8(a + b) == decode_utf8(a) + decode_utf8(b),
    decreases a.len(),
{
    valid_utf8_concat(a, b);
    if a.len() == 0 {
        assert(a + b =~= b);
        assert(decode_utf8(a) + decode_utf8(b) =~= decode_utf8(b));
    } else {
        let rest = pop_first_scalar(a);
        assert(pop_first_scalar(a + b) =~= rest + b);
        lemma_decode_concat(rest, b);
        assert(decode_utf8(a + b) =~= decode_utf8(a) + decode_utf8(b));
    }
}

/// What follows a valid run decides whether the whole is valid.
pub proof fn lemma_valid_suffix(a: Seq<u8>, b: Seq<u8>)
    requires
        valid_utf8(a),
    ensures
        valid_utf8(a + b) <==> valid_utf8(b),
        valid_utf8(b) ==> decode_utf8(a + b) == decode_utf8(a) + decode_utf8(b),
{
    if valid_utf8(b) {
        lemma_decode_concat(a, b);
    } else {
        let s = a + b;
        assert(s.subrange(0, a.len() as int) =~= a);
        assert(s.subrange(a.len() as int, s.len() as int) =~= b);
        partial_valid_partial_invalid_utf8(s, a.len() as int);
    }
}

/// The characters before the first bytes that are no UTF-8; all of them, where
/// there are no such bytes.
pub open spec fn legible(bytes: Seq<u8>) -> Seq<char>
    decreases bytes.len(),
{
    if bytes.len() > 0 && valid_first_scalar(bytes) {
        seq![decode_first_scalar(bytes) as char] + legible(pop_first_scalar(bytes))
    } else {
        seq![]
    }
}

/// All of a valid run is legible.
pub proof fn lemma_legible_whole(bytes: Seq<u8>)
    requires
        valid_utf8(bytes),
    ensures
        legible(bytes) == decode_utf8(bytes),
    decreases bytes.len(),
{
    if bytes.len() > 0 {
        lemma_legible_whole(pop_first_scalar(bytes));
    }
}

/// What is legible goes on after a valid run.
pub proof fn lemma_legible_suffix(a: Seq<u8>, b: Seq<u8>)
    requires
        valid_utf8(a),
    ensures
        legible(a + b) == decode_utf8(a) + legible(b),
    decreases a.len(),
{
    if a.len() == 0 {
        assert(a + b =~= b);
        assert(decode_utf8(a) + legible(b) =~= legible(b));
    } else {
        let rest = pop_first_scalar(a);
        assert((a + b)[0] == a[0]);
        assert(valid_first_scalar(a + b));
        assert(pop_first_scalar(a + b) =~= rest + b);
        lemma_legible_suffix(rest, b);
        assert(legible(a + b) =~= decode_utf8(a) + legible(b));
    }
}

/// A valid run holds at most as many characters as bytes.
pub proof fn lemma_decode_len(b: Seq<u8>)
    requires
        valid_utf8(b),
    ensures
        decode_utf8(b).len() <= b.len(),
    decreases b.len(),
{
    if b.len() > 0 {
        lemma_decode_len(pop_first_scalar(b));
    }
}

/// Where and how a run of bytes stops being UTF-8.
pub struct Utf8Problem {
    pub valid_up_to: usize,
    pub error_len: usize,
}

/// Decodes the longest prefix that consists of whole characters.
pub fn decode_prefix(bytes: &[u8]) -> (r: Result<(Vec<char>, usize), Utf8Problem>)
    ensures
        match r {
            Ok((chars, n)) => {
                &&& n <= bytes@.len()
                &&& valid_utf8(bytes@.take(n as int))
                &&& chars@ == decode_utf8(bytes@.take(n as int))
                &&& n < bytes@.len() ==> !valid_first_scalar(bytes@.skip(n as int)) && !hopeless(
                    bytes@.skip(n as int),
                )
            },
            Err(p) => {
                &&& p.valid_up_to < bytes@.len()
                &&& 1 <= p.error_len <= 3
                &&& valid_utf8(bytes@.take(p.valid_up_to as int))
                &&& hopeless(bytes@.skip(p.valid_up_to as int))
                &&& forall|t: Seq<u8>| !valid_utf8(#[trigger] (bytes@ + t))
            },
        },
{
    let mut out: Vec<char> = Vec::new();
    let mut i: usize = 0;
    assert(bytes@.take(0) =~= Seq::<u8>::empty());
    while i < bytes.len()
        invariant
            i <= bytes@.len(),
            valid_utf8(bytes@.take(i as int)),
            out@ == decode_utf8(bytes@.take(i as int)),
        decreases bytes@.len() - i,
    {
        let ghost rest = bytes@.skip(i as int);
        match front(bytes, i) {
            Front::Char(c, n) => {
                proof {
                    reveal_with_fuel(valid_utf8, 2);
                    reveal_with_fuel(decode_utf8, 2);
                    let one = rest.take(n as int);
                    assert(pop_first_scalar(one) =~= Seq::<u8>::empty());
                    assert(one[0] == rest[0]);
                    assert(valid_first_scalar(one));
                    assert(valid_utf8(one));
                    assert(decode_utf8(one) =~= seq![c]);
                    assert(bytes@.take(i + n) =~= bytes@.take(i as int) + one);
                    lemma_decode_concat(bytes@.take(i as int), one);
                    assert(out@.push(c) =~= out@ + seq![c]);
                }
                out.push(c);
                i += n;
            },
            Front::Incomplete => {
                return Ok((out, i));
            },
            Front::Invalid(len) => {
                proof {
                    assert forall|t: Seq<u8>| !valid_utf8(#[trigger] (bytes@ + t)) by {
                        let tail = rest + t;
                        assert(!valid_first_scalar(tail));
                        assert(tail.len() > 0);
                        lemma_valid_suffix(bytes@.take(i as int), tail);
                        assert(bytes@ + t =~= bytes@.take(i as int) + tail);
                    }
                }
                return Err(Utf8Problem { valid_up_to: i, error_len: len });
            },
        }
    }
    Ok((out, i))
}

} // verus!
