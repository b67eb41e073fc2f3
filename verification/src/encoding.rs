//! Facts about UTF-8 byte sequences that the buffer relies on when it cuts
//! and joins text at byte offsets. The definitions are vstd's
//! (`valid_utf8`, `is_char_boundary`, `encode_utf8`); this module only adds
//! lemmas about them.

use vstd::prelude::*;
use vstd::utf8::*;

verus! {

/// Encoding distributes over concatenation: the bytes of `a + b` are the
/// bytes of `a` followed by the bytes of `b`.
pub proof fn lemma_encode_utf8_concat(a: Seq<char>, b: Seq<char>)
    ensures
        encode_utf8(a + b) == encode_utf8(a) + encode_utf8(b),
    decreases a.len(),
{
    if a.len() > 0 {
        lemma_encode_utf8_concat(a.drop_first(), b);
        assert((a + b).drop_first() =~= a.drop_first() + b);
    }
}

/// In valid UTF-8 an offset is a character boundary exactly when it is the
/// end of the sequence or the byte at it is not a continuation byte.
pub proof fn lemma_boundary_by_byte(bytes: Seq<u8>, index: int)
    requires
        valid_utf8(bytes),
        0 <= index <= bytes.len(),
    ensures
        is_char_boundary(bytes, index) <==> (index == bytes.len() || !is_continuation_byte(
            bytes[index],
        )),
{
    if index == bytes.len() {
        is_char_boundary_start_end_of_seq(bytes);
    } else {
        is_char_boundary_iff_not_is_continuation_byte(bytes, index);
    }
}

/// A valid, non-empty sequence does not begin with a continuation byte.
pub proof fn lemma_first_byte_leads(bytes: Seq<u8>)
    requires
        valid_utf8(bytes),
        bytes.len() > 0,
    ensures
        !is_continuation_byte(bytes[0]),
{
}

/// Joining two valid sequences gives a valid sequence with a character
/// boundary at the joint.
pub proof fn lemma_boundary_at_join(a: Seq<u8>, b: Seq<u8>)
    requires
        valid_utf8(a),
        valid_utf8(b),
    ensures
        valid_utf8(a + b),
        is_char_boundary(a + b, a.len() as int),
{
    valid_utf8_concat(a, b);
    if b.len() > 0 {
        lemma_first_byte_leads(b);
    }
    lemma_boundary_by_byte(a + b, a.len() as int);
}

/// Cutting a valid sequence at a character boundary leaves two valid parts.
pub proof fn lemma_split_valid(bytes: Seq<u8>, index: int)
    requires
        valid_utf8(bytes),
        is_char_boundary(bytes, index),
    ensures
        0 <= index <= bytes.len(),
        valid_utf8(bytes.subrange(0, index)),
        valid_utf8(bytes.subrange(index, bytes.len() as int)),
{
    valid_utf8_split(bytes, index);
}

/// The offset just behind an ASCII byte of a valid sequence is a character
/// boundary, and so is the offset of the byte itself.
pub proof fn lemma_boundary_around_ascii(bytes: Seq<u8>, i: int)
    requires
        valid_utf8(bytes),
        0 <= i < bytes.len(),
        bytes[i] < 0x80,
    ensures
        is_char_boundary(bytes, i),
        is_char_boundary(bytes, i + 1),
{
    lemma_boundary_by_byte(bytes, i);
    lemma_split_valid(bytes, i);
    let tail = bytes.subrange(i, bytes.len() as int);
    let rest = pop_first_scalar(tail);
    if i + 1 < bytes.len() {
        lemma_first_byte_leads(rest);
    }
    lemma_boundary_by_byte(bytes, i + 1);
}

/// Within the part of a valid sequence that lies between two character
/// boundaries, the character boundaries are those of the whole sequence.
pub proof fn lemma_boundary_in_part(bytes: Seq<u8>, from: int, to: int, at: int)
    requires
        valid_utf8(bytes),
        is_char_boundary(bytes, from),
        is_char_boundary(bytes, to),
        from <= at <= to,
    ensures
        valid_utf8(bytes.subrange(from, to)),
        is_char_boundary(bytes.subrange(from, to), at - from) <==> is_char_boundary(bytes, at),
{
    lemma_split_valid(bytes, to);
    let head = bytes.subrange(0, to);
    lemma_boundary_by_byte(bytes, from);
    lemma_boundary_by_byte(head, from);
    lemma_split_valid(head, from);
    let part = head.subrange(from, to);
    assert(part =~= bytes.subrange(from, to));
    lemma_boundary_by_byte(bytes, at);
    lemma_boundary_by_byte(part, at - from);
}

} // verus!
