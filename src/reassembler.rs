//! Turns raw reads from a terminal into well-formed text.
//!
//! Reads may cut a multi-byte sequence anywhere; the incomplete tail is kept
//! until the next read. A structurally invalid sequence becomes one
//! replacement character, and decoding resumes right after it.

use vstd::prelude::*;
use vstd::string::*;
use vstd::utf8::*;

verus! {

/// The character that stands in for an invalid byte sequence.
pub open spec fn replacement() -> char {
    '\u{FFFD}'
}

/// Number of bytes announced by a leading byte; 0 when the byte can never
/// start a well-formed sequence.
pub open spec fn lead_width(b: u8) -> nat {
    if b <= 0x7f {
        1
    } else if 0xc2 <= b <= 0xdf {
        2
    } else if 0xe0 <= b <= 0xef {
        3
    } else if 0xf0 <= b <= 0xf4 {
        4
    } else {
        0
    }
}

/// Whether `b` may follow the leading byte `lead` (the second byte's range
/// depends on the lead, to exclude overlong forms, surrogates and values past
/// the last code point).
pub open spec fn second_ok(lead: u8, b: u8) -> bool {
    if lead == 0xe0 {
        0xa0 <= b <= 0xbf
    } else if lead == 0xed {
        0x80 <= b <= 0x9f
    } else if lead == 0xf0 {
        0x90 <= b <= 0xbf
    } else if lead == 0xf4 {
        0x80 <= b <= 0x8f
    } else {
        0x80 <= b <= 0xbf
    }
}

/// Length of the longest prefix of `s` (at most its lead's width) that can
/// begin a well-formed sequence.
pub open spec fn good_len(s: Seq<u8>) -> nat
    recommends
        s.len() > 0,
{
    let w = lead_width(s[0]);
    if w == 0 {
        0
    } else if w == 1 || s.len() < 2 || !second_ok(s[0], s[1]) {
        1
    } else if w == 2 || s.len() < 3 || !is_continuation_byte(s[2]) {
        2
    } else if w == 3 || s.len() < 4 || !is_continuation_byte(s[3]) {
        3
    } else {
        4
    }
}

/// What stands at the start of a byte string.
pub enum Unit {
    /// A well-formed encoding of one character, of this many bytes.
    Scalar { len: nat },
    /// A maximal invalid subpart of this many bytes.
    Invalid { len: nat },
    /// The whole string is an unfinished but so far well-formed sequence.
    Partial,
}

pub open spec fn first_unit(s: Seq<u8>) -> Unit
    recommends
        s.len() > 0,
{
    let w = lead_width(s[0]);
    let g = good_len(s);
    if w == 0 {
        Unit::Invalid { len: 1 }
    } else if g == w {
        Unit::Scalar { len: w }
    } else if g == s.len() {
        Unit::Partial
    } else {
        Unit::Invalid { len: g }
    }
}

/// The length of the unit at the start of `s` (the whole of `s` when partial).
pub open spec fn unit_len(s: Seq<u8>) -> nat {
    match first_unit(s) {
        Unit::Scalar { len } => len,
        Unit::Invalid { len } => len,
        Unit::Partial => s.len(),
    }
}

proof fn lemma_unit_len(s: Seq<u8>)
    requires
        s.len() > 0,
    ensures
        1 <= unit_len(s) <= s.len(),
{
}

/// Decodes the complete units of `s`: the text they stand for, and the
/// unfinished tail (empty, or one partial sequence) left for later bytes.
pub open spec fn split_complete(s: Seq<u8>) -> (Seq<char>, Seq<u8>)
    decreases s.len(),
{
    if s.len() == 0 {
        (Seq::empty(), Seq::empty())
    } else {
        let n = unit_len(s);
        if 1 <= n <= s.len() {
            match first_unit(s) {
                Unit::Scalar { len } => {
                    let r = split_complete(s.skip(n as int));
                    (seq![decode_first_scalar(s) as char] + r.0, r.1)
                },
                Unit::Invalid { len } => {
                    let r = split_complete(s.skip(n as int));
                    (seq![replacement()] + r.0, r.1)
                },
                Unit::Partial => (Seq::empty(), s),
            }
        } else {
            (Seq::empty(), s)
        }
    }
}

/// What an unfinished tail stands for once the stream has ended.
pub open spec fn end_marker(tail: Seq<u8>) -> Seq<char> {
    if tail.len() == 0 {
        Seq::empty()
    } else {
        seq![replacement()]
    }
}

/// The text of a whole byte stream, with one replacement character for each
/// invalid sequence and for an unfinished sequence at its end.
pub open spec fn decode_lossy(s: Seq<u8>) -> Seq<char> {
    split_complete(s).0 + end_marker(split_complete(s).1)
}

/// A unit that is not partial stays what it is whatever bytes follow.
proof fn lemma_unit_stable(s: Seq<u8>, t: Seq<u8>)
    requires
        s.len() > 0,
        !(first_unit(s) is Partial),
    ensures
        first_unit(s + t) == first_unit(s),
        unit_len(s + t) == unit_len(s),
        (s + t).skip(unit_len(s) as int) =~= s.skip(unit_len(s) as int) + t,
        first_unit(s) is Scalar ==> decode_first_scalar(s + t) == decode_first_scalar(s),
{
    let st = s + t;
    assert(st[0] == s[0]);
    if s.len() >= 2 {
        assert(st[1] == s[1]);
    }
    if s.len() >= 3 {
        assert(st[2] == s[2]);
    }
    if s.len() >= 4 {
        assert(st[3] == s[3]);
    }
    lemma_unit_len(s);
}

/// The tail that decoding leaves is decoded to nothing and left whole.
proof fn lemma_tail_is_pending(s: Seq<u8>)
    ensures
        split_complete(split_complete(s).1) == (Seq::<char>::empty(), split_complete(s).1),
    decreases s.len(),
{
    if s.len() > 0 {
        lemma_unit_len(s);
        match first_unit(s) {
            Unit::Partial => {},
            _ => {
                lemma_tail_is_pending(s.skip(unit_len(s) as int));
            },
        }
    }
}

/// Decoding `a` and then its tail followed by `b` gives what decoding `a + b`
/// gives at once.
proof fn lemma_split_concat(a: Seq<u8>, b: Seq<u8>)
    ensures
        split_complete(a + b) == (
        split_complete(a).0 + split_complete(split_complete(a).1 + b).0,
        split_complete(split_complete(a).1 + b).1,
        ),
    decreases a.len(),
{
    if a.len() == 0 {
        assert(a + b =~= b);
        assert(split_complete(a).1 + b =~= b);
        assert(split_complete(a).0 + split_complete(b).0 =~= split_complete(b).0);
    } else {
        lemma_unit_len(a);
        match first_unit(a) {
            Unit::Partial => {
                assert(split_complete(a).0 + split_complete(a + b).0 =~= split_complete(a + b).0);
            },
            _ => {
                let n = unit_len(a);
                lemma_unit_stable(a, b);
                lemma_unit_len(a + b);
                lemma_split_concat(a.skip(n as int), b);
                let r = split_complete(a.skip(n as int));
                let q = split_complete(r.1 + b);
                let head = split_complete(a).0.take(1);
                assert(split_complete(a).0 =~= head + r.0);
                assert(split_complete(a + b).0 =~= head + (r.0 + q.0));
                assert(head + (r.0 + q.0) =~= (head + r.0) + q.0);
            },
        }
    }
}

/// Reading a stream in two parts, at any byte boundary, yields the same text
/// as reading it in one part: the text of the first part's complete units,
/// then the text of the held-back tail joined with the second part, then the
/// end-of-stream marker for what is finally left over.
pub proof fn lemma_two_reads_one_text(a: Seq<u8>, b: Seq<u8>)
    ensures
        ({
            let first = split_complete(a);
            let second = split_complete(first.1 + b);
            first.0 + second.0 + end_marker(second.1) == decode_lossy(a + b)
        }),
{
    lemma_split_concat(a, b);
    let first = split_complete(a);
    let second = split_complete(first.1 + b);
    assert(first.0 + second.0 + end_marker(second.1) =~= decode_lossy(a + b));
}

/// The text produced by feeding `reads` one after another, starting with the
/// held-back bytes `tail`, and the bytes held back at the end.
pub open spec fn feed_all(tail: Seq<u8>, reads: Seq<Seq<u8>>) -> (Seq<char>, Seq<u8>)
    decreases reads.len(),
{
    if reads.len() == 0 {
        (Seq::empty(), tail)
    } else {
        let first = split_complete(tail + reads[0]);
        let rest = feed_all(first.1, reads.skip(1));
        (first.0 + rest.0, rest.1)
    }
}

/// All the bytes of a list of reads, in order.
pub open spec fn joined(reads: Seq<Seq<u8>>) -> Seq<u8>
    decreases reads.len(),
{
    if reads.len() == 0 {
        Seq::empty()
    } else {
        reads[0] + joined(reads.skip(1))
    }
}

proof fn lemma_feed_all_split(tail: Seq<u8>, reads: Seq<Seq<u8>>)
    requires
        split_complete(tail) == (Seq::<char>::empty(), tail),
    ensures
        feed_all(tail, reads) == split_complete(tail + joined(reads)),
    decreases reads.len(),
{
    if reads.len() == 0 {
        assert(tail + joined(reads) =~= tail);
    } else {
        let first = split_complete(tail + reads[0]);
        lemma_tail_is_pending(tail + reads[0]);
        lemma_feed_all_split(first.1, reads.skip(1));
        lemma_split_concat(tail + reads[0], joined(reads.skip(1)));
        assert(tail + joined(reads) =~= (tail + reads[0]) + joined(reads.skip(1)));
    }
}

/// However a stream is cut into reads, feeding them in order and then ending
/// the stream yields the text of the whole stream.
pub proof fn lemma_any_reads_one_text(reads: Seq<Seq<u8>>)
    ensures
        feed_all(Seq::empty(), reads).0 + end_marker(feed_all(Seq::empty(), reads).1)
            == decode_lossy(joined(reads)),
{
    let e = Seq::<u8>::empty();
    assert(split_complete(e) == (Seq::<char>::empty(), e));
    lemma_feed_all_split(e, reads);
    assert(e + joined(reads) =~= joined(reads));
}

/// After text that ends on a character boundary, an invalid sequence `x` (one
/// maximal invalid subpart where it stands, such as a stray byte, or the start
/// of a sequence cut short by the byte that follows) turns into exactly one
/// replacement character, and the bytes after it are decoded as if the stream
/// began there.
pub proof fn lemma_invalid_sequence_one_marker(a: Seq<u8>, x: Seq<u8>, b: Seq<u8>)
    requires
        split_complete(a).1.len() == 0,
        x.len() > 0,
        first_unit(x + b) == (Unit::Invalid { len: x.len() }),
    ensures
        decode_lossy(a + x + b) == split_complete(a).0 + seq![replacement()] + decode_lossy(b),
{
    lemma_split_concat(a, x + b);
    assert(split_complete(a).1 + (x + b) =~= x + b);
    lemma_unit_len(x + b);
    assert((x + b).skip(x.len() as int) =~= b);
    assert(a + x + b =~= a + (x + b));
    assert(decode_lossy(a + x + b) =~= split_complete(a).0 + seq![replacement()] + decode_lossy(b));
}

/// Between two pieces of well-formed text, an invalid sequence becomes one
/// replacement character and both pieces come through as they are.
pub proof fn lemma_invalid_between_valid_text(a: Seq<u8>, x: Seq<u8>, b: Seq<u8>)
    requires
        valid_utf8(a),
        valid_utf8(b),
        x.len() > 0,
        first_unit(x + b) == (Unit::Invalid { len: x.len() }),
    ensures
        decode_lossy(a + x + b) == decode_utf8(a) + seq![replacement()] + decode_utf8(b),
{
    lemma_valid_decodes_plainly(a);
    lemma_valid_decodes_plainly(b);
    lemma_invalid_sequence_one_marker(a, x, b);
}

/// Well-formed text decodes to its characters, with nothing held back and no
/// replacement character.
pub proof fn lemma_valid_decodes_plainly(s: Seq<u8>)
    requires
        valid_utf8(s),
    ensures
        split_complete(s) == (decode_utf8(s), Seq::<u8>::empty()),
        decode_lossy(s) == decode_utf8(s),
    decreases s.len(),
{
    if s.len() > 0 {
        lemma_valid_scalar_unit(s);
        let n = length_of_first_scalar(s);
        assert(s.skip(n) =~= pop_first_scalar(s));
        lemma_valid_decodes_plainly(pop_first_scalar(s));
    }
    assert(decode_lossy(s) =~= decode_utf8(s));
}

/// Well-formed text cut into two reads at any byte yields its characters and
/// nothing else.
pub proof fn lemma_valid_text_any_cut(s: Seq<u8>, k: int)
    requires
        valid_utf8(s),
        0 <= k <= s.len(),
    ensures
        ({
            let first = split_complete(s.take(k));
            let second = split_complete(first.1 + s.skip(k));
            first.0 + second.0 + end_marker(second.1) == decode_utf8(s)
        }),
{
    lemma_two_reads_one_text(s.take(k), s.skip(k));
    assert(s.take(k) + s.skip(k) =~= s);
    lemma_valid_decodes_plainly(s);
}

proof fn lemma_width2_back(b0: u8, b1: u8)
    requires
        0xc0 <= b0 <= 0xdf,
        0x80 <= b1 <= 0xbf,
        0x80 <= ((((b0 & 0x1f) as u32) << 6u32) | ((b1 & 0x3f) as u32)),
    ensures
        0xc2 <= b0,
{
    assert(0xc2 <= b0) by (bit_vector)
        requires
            0xc0 <= b0 <= 0xdf,
            0x80 <= b1 <= 0xbf,
            0x80 <= ((((b0 & 0x1f) as u32) << 6u32) | ((b1 & 0x3f) as u32)),
    ;
}

proof fn lemma_width3_back(b0: u8, b1: u8, b2: u8)
    requires
        0xe0 <= b0 <= 0xef,
        0x80 <= b1 <= 0xbf,
        0x80 <= b2 <= 0xbf,
        ({
            let c = (((b0 & 0x0f) as u32) << 12u32) | (((b1 & 0x3f) as u32) << 6u32) | ((b2
                & 0x3f) as u32);
            0x800 <= c && !(0xd800 <= c <= 0xdfff)
        }),
    ensures
        second_ok(b0, b1),
{
    assert((b0 == 0xe0 ==> 0xa0 <= b1) && (b0 == 0xed ==> b1 <= 0x9f)) by (bit_vector)
        requires
            0xe0 <= b0 <= 0xef,
            0x80 <= b1 <= 0xbf,
            0x80 <= b2 <= 0xbf,
            ({
                let c = (((b0 & 0x0f) as u32) << 12u32) | (((b1 & 0x3f) as u32) << 6u32) | ((b2
                    & 0x3f) as u32);
                0x800 <= c && !(0xd800 <= c <= 0xdfff)
            }),
    ;
}

proof fn lemma_width4_back(b0: u8, b1: u8, b2: u8, b3: u8)
    requires
        0xf0 <= b0 <= 0xf7,
        0x80 <= b1 <= 0xbf,
        0x80 <= b2 <= 0xbf,
        0x80 <= b3 <= 0xbf,
        ({
            let c = (((b0 & 0x07) as u32) << 18u32) | (((b1 & 0x3f) as u32) << 12u32) | (((b2
                & 0x3f) as u32) << 6u32) | ((b3 & 0x3f) as u32);
            0x10000 <= c <= 0x10ffff
        }),
    ensures
        b0 <= 0xf4,
        second_ok(b0, b1),
{
    assert(b0 <= 0xf4 && (b0 == 0xf0 ==> 0x90 <= b1) && (b0 == 0xf4 ==> b1 <= 0x8f))
        by (bit_vector)
        requires
            0xf0 <= b0 <= 0xf7,
            0x80 <= b1 <= 0xbf,
            0x80 <= b2 <= 0xbf,
            0x80 <= b3 <= 0xbf,
            ({
                let c = (((b0 & 0x07) as u32) << 18u32) | (((b1 & 0x3f) as u32) << 12u32) | (((b2
                    & 0x3f) as u32) << 6u32) | ((b3 & 0x3f) as u32);
                0x10000 <= c <= 0x10ffff
            }),
    ;
}

/// A well-formed encoding in vstd's sense is a scalar unit of the same length.
proof fn lemma_valid_scalar_unit(s: Seq<u8>)
    requires
        s.len() > 0,
        valid_first_scalar(s),
    ensures
        first_unit(s) == (Unit::Scalar { len: length_of_first_scalar(s) as nat }),
        unit_len(s) == length_of_first_scalar(s),
{
    let b0 = s[0];
    if is_leading_byte_width_2(b0) {
        lemma_width2_back(b0, s[1]);
    } else if is_leading_byte_width_3(b0) {
        lemma_width3_back(b0, s[1], s[2]);
    } else if is_leading_byte_width_4(b0) {
        lemma_width4_back(b0, s[1], s[2], s[3]);
    }
}

proof fn lemma_width2_bits(b0: u8, b1: u8)
    requires
        0xc2 <= b0 <= 0xdf,
        0x80 <= b1 <= 0xbf,
    ensures
        0x80 <= ((((b0 & 0x1f) as u32) << 6u32) | ((b1 & 0x3f) as u32)) <= 0x7ff,
{
    assert(0x80 <= ((((b0 & 0x1f) as u32) << 6u32) | ((b1 & 0x3f) as u32)) <= 0x7ff)
        by (bit_vector)
        requires
            0xc2 <= b0 <= 0xdf,
            0x80 <= b1 <= 0xbf,
    ;
}

proof fn lemma_width3_bits(b0: u8, b1: u8, b2: u8)
    requires
        0xe0 <= b0 <= 0xef,
        second_ok(b0, b1),
        0x80 <= b2 <= 0xbf,
    ensures
        ({
            let c = (((b0 & 0x0f) as u32) << 12u32) | (((b1 & 0x3f) as u32) << 6u32) | ((b2
                & 0x3f) as u32);
            0x800 <= c <= 0xffff && !(0xd800 <= c <= 0xdfff)
        }),
{
    if b0 == 0xe0 {
        assert(({
            let c = (((b0 & 0x0f) as u32) << 12u32) | (((b1 & 0x3f) as u32) << 6u32) | ((b2
                & 0x3f) as u32);
            0x800 <= c <= 0xffff && !(0xd800 <= c <= 0xdfff)
        })) by (bit_vector)
            requires
                b0 == 0xe0,
                0xa0 <= b1 <= 0xbf,
                0x80 <= b2 <= 0xbf,
        ;
    } else if b0 == 0xed {
        assert(({
            let c = (((b0 & 0x0f) as u32) << 12u32) | (((b1 & 0x3f) as u32) << 6u32) | ((b2
                & 0x3f) as u32);
            0x800 <= c <= 0xffff && !(0xd800 <= c <= 0xdfff)
        })) by (bit_vector)
            requires
                b0 == 0xed,
                0x80 <= b1 <= 0x9f,
                0x80 <= b2 <= 0xbf,
        ;
    } else if b0 < 0xed {
        assert(({
            let c = (((b0 & 0x0f) as u32) << 12u32) | (((b1 & 0x3f) as u32) << 6u32) | ((b2
                & 0x3f) as u32);
            0x800 <= c <= 0xffff && !(0xd800 <= c <= 0xdfff)
        })) by (bit_vector)
            requires
                0xe1 <= b0 <= 0xec,
                0x80 <= b1 <= 0xbf,
                0x80 <= b2 <= 0xbf,
        ;
    } else {
        assert(({
            let c = (((b0 & 0x0f) as u32) << 12u32) | (((b1 & 0x3f) as u32) << 6u32) | ((b2
                & 0x3f) as u32);
            0x800 <= c <= 0xffff && !(0xd800 <= c <= 0xdfff)
        })) by (bit_vector)
            requires
                0xee <= b0 <= 0xef,
                0x80 <= b1 <= 0xbf,
                0x80 <= b2 <= 0xbf,
        ;
    }
}

proof fn lemma_width4_bits(b0: u8, b1: u8, b2: u8, b3: u8)
    requires
        0xf0 <= b0 <= 0xf4,
        second_ok(b0, b1),
        0x80 <= b2 <= 0xbf,
        0x80 <= b3 <= 0xbf,
    ensures
        ({
            let c = (((b0 & 0x07) as u32) << 18u32) | (((b1 & 0x3f) as u32) << 12u32) | (((b2
                & 0x3f) as u32) << 6u32) | ((b3 & 0x3f) as u32);
            0x10000 <= c <= 0x10ffff
        }),
{
    if b0 == 0xf0 {
        assert(({
            let c = (((b0 & 0x07) as u32) << 18u32) | (((b1 & 0x3f) as u32) << 12u32) | (((b2
                & 0x3f) as u32) << 6u32) | ((b3 & 0x3f) as u32);
            0x10000 <= c <= 0x10ffff
        })) by (bit_vector)
            requires
                b0 == 0xf0,
                0x90 <= b1 <= 0xbf,
                0x80 <= b2 <= 0xbf,
                0x80 <= b3 <= 0xbf,
        ;
    } else if b0 == 0xf4 {
        assert(({
            let c = (((b0 & 0x07) as u32) << 18u32) | (((b1 & 0x3f) as u32) << 12u32) | (((b2
                & 0x3f) as u32) << 6u32) | ((b3 & 0x3f) as u32);
            0x10000 <= c <= 0x10ffff
        })) by (bit_vector)
            requires
                b0 == 0xf4,
                0x80 <= b1 <= 0x8f,
                0x80 <= b2 <= 0xbf,
                0x80 <= b3 <= 0xbf,
        ;
    } else {
        assert(({
            let c = (((b0 & 0x07) as u32) << 18u32) | (((b1 & 0x3f) as u32) << 12u32) | (((b2
                & 0x3f) as u32) << 6u32) | ((b3 & 0x3f) as u32);
            0x10000 <= c <= 0x10ffff
        })) by (bit_vector)
            requires
                0xf1 <= b0 <= 0xf3,
                0x80 <= b1 <= 0xbf,
                0x80 <= b2 <= 0xbf,
                0x80 <= b3 <= 0xbf,
        ;
    }
}

/// A unit that the table calls a scalar is a well-formed encoding in vstd's
/// sense, on its own bytes as well as at the head of the longer string.
proof fn lemma_scalar_unit_valid(s: Seq<u8>)
    requires
        s.len() > 0,
        first_unit(s) is Scalar,
    ensures
        ({
            let n = unit_len(s) as int;
            let u = s.subrange(0, n);
            &&& valid_first_scalar(s)
            &&& length_of_first_scalar(s) == n
            &&& valid_first_scalar(u)
            &&& length_of_first_scalar(u) == n
            &&& decode_first_scalar(u) == decode_first_scalar(s)
        }),
{
    let n = unit_len(s) as int;
    let u = s.subrange(0, n);
    lemma_unit_len(s);
    assert(u[0] == s[0]);
    if n >= 2 {
        assert(u[1] == s[1]);
    }
    if n >= 3 {
        assert(u[2] == s[2]);
    }
    if n >= 4 {
        assert(u[3] == s[3]);
    }
    if n == 2 {
        lemma_width2_bits(s[0], s[1]);
    } else if n == 3 {
        lemma_width3_bits(s[0], s[1], s[2]);
    } else if n == 4 {
        lemma_width4_bits(s[0], s[1], s[2], s[3]);
    }
}

/// Appending one well-formed scalar encoding to well-formed text appends its
/// character.
proof fn lemma_append_scalar(a: Seq<u8>, u: Seq<u8>)
    requires
        valid_utf8(a),
        valid_first_scalar(u),
        length_of_first_scalar(u) == u.len(),
    ensures
        valid_utf8(a + u),
        decode_utf8(a + u) == decode_utf8(a) + seq![decode_first_scalar(u) as char],
    decreases a.len(),
{
    if a.len() == 0 {
        assert(a + u =~= u);
        assert(pop_first_scalar(u) =~= Seq::<u8>::empty());
        reveal_with_fuel(valid_utf8, 2);
        reveal_with_fuel(decode_utf8, 2);
        assert(decode_utf8(a) + seq![decode_first_scalar(u) as char] =~= seq![
            decode_first_scalar(u) as char,
        ] + decode_utf8(pop_first_scalar(u)));
    } else {
        let au = a + u;
        assert(au[0] == a[0]);
        if a.len() >= 2 {
            assert(au[1] == a[1]);
        }
        if a.len() >= 3 {
            assert(au[2] == a[2]);
        }
        if a.len() >= 4 {
            assert(au[3] == a[3]);
        }
        assert(valid_first_scalar(au));
        assert(length_of_first_scalar(au) == length_of_first_scalar(a));
        assert(decode_first_scalar(au) == decode_first_scalar(a));
        let rest = pop_first_scalar(a);
        assert(pop_first_scalar(au) =~= rest + u);
        lemma_append_scalar(rest, u);
        assert(decode_utf8(au) =~= decode_utf8(a) + seq![decode_first_scalar(u) as char]);
    }
}

/// The unit found at a position of a buffer.
enum UnitStep {
    Scalar(usize),
    Invalid(usize),
    Partial,
}

impl UnitStep {
    spec fn spec_unit(&self) -> Unit {
        match *self {
            UnitStep::Scalar(n) => Unit::Scalar { len: n as nat },
            UnitStep::Invalid(n) => Unit::Invalid { len: n as nat },
            UnitStep::Partial => Unit::Partial,
        }
    }
}

fn lead_width_of(b: u8) -> (r: usize)
    ensures
        r == lead_width(b),
{
    if b <= 0x7f {
        1
    } else if 0xc2 <= b && b <= 0xdf {
        2
    } else if 0xe0 <= b && b <= 0xef {
        3
    } else if 0xf0 <= b && b <= 0xf4 {
        4
    } else {
        0
    }
}

fn second_byte_ok(lead: u8, b: u8) -> (r: bool)
    ensures
        r == second_ok(lead, b),
{
    if lead == 0xe0 {
        0xa0 <= b && b <= 0xbf
    } else if lead == 0xed {
        0x80 <= b && b <= 0x9f
    } else if lead == 0xf0 {
        0x90 <= b && b <= 0xbf
    } else if lead == 0xf4 {
        0x80 <= b && b <= 0x8f
    } else {
        0x80 <= b && b <= 0xbf
    }
}

fn is_continuation(b: u8) -> (r: bool)
    ensures
        r == is_continuation_byte(b),
{
    0x80 <= b && b <= 0xbf
}

/// Classifies the unit that starts at `pos`.
fn classify(data: &Vec<u8>, pos: usize) -> (r: UnitStep)
    requires
        pos < data@.len(),
    ensures
        r.spec_unit() == first_unit(data@.skip(pos as int)),
{
    let ghost s = data@.skip(pos as int);
    let rem = data.len() - pos;
    let b0 = data[pos];
    assert(s[0] == b0);
    let w = lead_width_of(b0);
    let g: usize = if w == 0 {
        0
    } else if w == 1 || rem < 2 || !second_byte_ok(b0, data[pos + 1]) {
        1
    } else if w == 2 || rem < 3 || !is_continuation(data[pos + 2]) {
        2
    } else if w == 3 || rem < 4 || !is_continuation(data[pos + 3]) {
        3
    } else {
        4
    };
    proof {
        if rem >= 2 {
            assert(s[1] == data@[pos + 1]);
        }
        if rem >= 3 {
            assert(s[2] == data@[pos + 2]);
        }
        if rem >= 4 {
            assert(s[3] == data@[pos + 3]);
        }
        assert(g == good_len(s));
    }
    if w == 0 {
        UnitStep::Invalid(1)
    } else if g == w {
        UnitStep::Scalar(w)
    } else if g == rem {
        UnitStep::Partial
    } else {
        UnitStep::Invalid(g)
    }
}

/// Finds the end of the run of well-formed characters that starts at `start`.
fn scalar_run_end(data: &Vec<u8>, start: usize) -> (end: usize)
    requires
        start < data@.len(),
        first_unit(data@.skip(start as int)) is Scalar,
    ensures
        start < end <= data@.len(),
        valid_utf8(data@.subrange(start as int, end as int)),
        split_complete(data@.skip(start as int)) == (
        decode_utf8(data@.subrange(start as int, end as int)) + split_complete(
            data@.skip(end as int),
        ).0,
        split_complete(data@.skip(end as int)).1,
        ),
{
    let mut end = start;
    let mut going = true;
    proof {
        assert(data@.subrange(start as int, start as int) =~= Seq::<u8>::empty());
        assert(Seq::<char>::empty() + split_complete(data@.skip(start as int)).0 =~= split_complete(
            data@.skip(start as int),
        ).0);
    }
    while going && end < data.len()
        invariant
            start <= end <= data@.len(),
            end == start ==> going,
            start < data@.len(),
            first_unit(data@.skip(start as int)) is Scalar,
            valid_utf8(data@.subrange(start as int, end as int)),
            split_complete(data@.skip(start as int)) == (
            decode_utf8(data@.subrange(start as int, end as int)) + split_complete(
                data@.skip(end as int),
            ).0,
            split_complete(data@.skip(end as int)).1,
            ),
        decreases data@.len() - end + (if going {
            1int
        } else {
            0int
        }),
    {
        match classify(data, end) {
            UnitStep::Scalar(m) => {
                proof {
                    let t = data@.skip(end as int);
                    lemma_unit_len(t);
                    lemma_scalar_unit_valid(t);
                    let u = t.subrange(0, m as int);
                    assert(u =~= data@.subrange(end as int, end + m));
                    assert(t.skip(m as int) =~= data@.skip(end + m));
                    let prev = data@.subrange(start as int, end as int);
                    lemma_append_scalar(prev, u);
                    assert(prev + u =~= data@.subrange(start as int, end + m));
                    let c = decode_first_scalar(t) as char;
                    let rest = split_complete(data@.skip(end + m));
                    assert(split_complete(t).0 == seq![c] + rest.0);
                    assert(decode_utf8(prev) + (seq![c] + rest.0) =~= (decode_utf8(prev) + seq![c])
                        + rest.0);
                }
                end = end + m;
            },
            _ => {
                going = false;
            },
        }
    }
    end
}

/// Relies on `std::str::from_utf8`: it accepts exactly the well-formed UTF-8
/// byte strings, and their text is the characters those bytes encode.
#[verifier::external_body]
fn utf8_text(bytes: &[u8]) -> (r: Option<String>)
    ensures
        r.is_some() == valid_utf8(bytes@),
        r matches Some(t) ==> t@ == decode_utf8(bytes@),
{
    match std::str::from_utf8(bytes) {
        Ok(t) => Some(t.to_string()),
        Err(_) => None,
    }
}

/// Reassembles the bytes of a stream, read in pieces of any size, into text.
pub struct ByteReassembler {
    pending: Vec<u8>,
}

impl View for ByteReassembler {
    type V = Seq<u8>;

    /// The bytes held back: the start of a sequence that is not finished yet.
    closed spec fn view(&self) -> Seq<u8> {
        self.pending@
    }
}

impl ByteReassembler {
    /// The held-back bytes are empty or one unfinished sequence.
    pub open spec fn wf(&self) -> bool {
        split_complete(self@) == (Seq::<char>::empty(), self@)
    }

    pub fn new() -> (r: ByteReassembler)
        ensures
            r@ == Seq::<u8>::empty(),
            r.wf(),
    {
        ByteReassembler { pending: Vec::new() }
    }

    /// Takes the next raw read and returns the text of every sequence that is
    /// now complete; an unfinished sequence at the end is held back.
    pub fn feed(&mut self, input: &[u8]) -> (r: String)
        requires
            old(self).wf(),
        ensures
            r@ == split_complete(old(self)@ + input@).0,
            final(self)@ == split_complete(old(self)@ + input@).1,
            final(self).wf(),
    {
        let mut data: Vec<u8> = Vec::new();
        std::mem::swap(&mut data, &mut self.pending);
        let ghost whole = data@ + input@;
        let mut i: usize = 0;
        while i < input.len()
            invariant
                i <= input@.len(),
                data@ == whole.take(data@.len() as int),
                data@.len() == whole.len() - input@.len() + i,
                whole == old(self)@ + input@,
            decreases input@.len() - i,
        {
            proof {
                assert(whole[data@.len() as int] == input@[i as int]);
            }
            data.push(input[i]);
            i = i + 1;
            proof {
                assert(data@ =~= whole.take(data@.len() as int));
            }
        }
        proof {
            assert(data@ =~= whole);
            assert(data@.skip(0) =~= data@);
            assert(Seq::<char>::empty() + split_complete(data@).0 =~= split_complete(data@).0);
        }
        let mut out = String::new();
        let mut pos: usize = 0;
        let mut stop = false;
        while !stop && pos < data.len()
            invariant
                pos <= data@.len(),
                data@ == whole,
                whole == old(self)@ + input@,
                split_complete(whole) == (
                out@ + split_complete(data@.skip(pos as int)).0,
                split_complete(data@.skip(pos as int)).1,
                ),
                stop ==> split_complete(data@.skip(pos as int)) == (
                Seq::<char>::empty(),
                data@.skip(pos as int),
                ),
            decreases data@.len() - pos + (if stop {
                0int
            } else {
                1int
            }),
        {
            let ghost t = data@.skip(pos as int);
            proof {
                lemma_unit_len(t);
            }
            match classify(&data, pos) {
                UnitStep::Scalar(_) => {
                    let end = scalar_run_end(&data, pos);
                    let ghost before = out@;
                    let piece = vstd::slice::slice_subrange(data.as_slice(), pos, end);
                    match utf8_text(piece) {
                        Some(text) => {
                            out.append(text.as_str());
                        },
                        None => {},
                    }
                    proof {
                        let rest = split_complete(data@.skip(end as int));
                        assert(out@ == before + decode_utf8(data@.subrange(pos as int, end as int)));
                        assert(out@ + rest.0 =~= before + (decode_utf8(
                            data@.subrange(pos as int, end as int),
                        ) + rest.0));
                    }
                    pos = end;
                },
                UnitStep::Invalid(n) => {
                    proof {
                        reveal_strlit("\u{FFFD}");
                        assert(t.skip(n as int) =~= data@.skip(pos + n));
                        let rest = split_complete(data@.skip(pos + n));
                        assert(out@ + seq![replacement()] + rest.0 =~= out@ + (seq![replacement()]
                            + rest.0));
                    }
                    out.append("\u{FFFD}");
                    pos = pos + n;
                },
                UnitStep::Partial => {
                    proof {
                        assert(out@ + Seq::<char>::empty() =~= out@);
                    }
                    stop = true;
                },
            }
        }
        if !stop {
            proof {
                assert(data@.skip(pos as int) =~= Seq::<u8>::empty());
                assert(out@ + Seq::<char>::empty() =~= out@);
            }
        }
        let rest = data.split_off(pos);
        proof {
            assert(rest@ =~= whole.skip(pos as int));
            lemma_tail_is_pending(whole);
        }
        self.pending = rest;
        out
    }

    /// Ends the stream: whatever is still held back becomes one replacement
    /// character.
    pub fn finish(&mut self) -> (r: String)
        requires
            old(self).wf(),
        ensures
            r@ == end_marker(old(self)@),
            final(self)@ == Seq::<u8>::empty(),
            final(self).wf(),
    {
        let had_tail = self.pending.len() > 0;
        self.pending = Vec::new();
        if had_tail {
            proof {
                reveal_strlit("\u{FFFD}");
            }
            String::from_str("\u{FFFD}")
        } else {
            String::new()
        }
    }
}

} // verus!
