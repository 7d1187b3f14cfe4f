//! Facts about well-formed UTF-8 that the string operations rest on.
use vstd::prelude::*;
use vstd::string::StringSliceAdditionalSpecFns;
use vstd::utf8::*;

verus! {

/// The bytes of a string slice are well-formed and decode to its text.
pub proof fn lemma_text_of_str(s: &str)
    ensures
        valid_utf8(s.spec_bytes()),
        decode_utf8(s.spec_bytes()) == s@,
{
    encode_utf8_valid_utf8(s@);
    encode_utf8_decode_utf8(s@);
}

/// Encoding distributes over concatenation.
pub proof fn lemma_encode_concat(front: Seq<char>, back: Seq<char>)
    ensures
        encode_utf8(front + back) == encode_utf8(front) + encode_utf8(back),
    decreases front.len(),
{
    if front.len() == 0 {
        assert(front + back =~= back);
        assert(encode_utf8(front) + encode_utf8(back) =~= encode_utf8(back));
    } else {
        lemma_encode_concat(front.drop_first(), back);
        assert((front + back).drop_first() =~= front.drop_first() + back);
        assert(encode_utf8(front + back) =~= encode_utf8(front) + encode_utf8(back));
    }
}

/// Two well-formed byte strings laid end to end are well-formed, and decode
/// to the one text followed by the other.
pub proof fn lemma_decode_concat(front: Seq<u8>, back: Seq<u8>)
    requires
        valid_utf8(front),
        valid_utf8(back),
    ensures
        valid_utf8(front + back),
        decode_utf8(front + back) == decode_utf8(front) + decode_utf8(back),
{
    valid_utf8_concat(front, back);
    decode_utf8_encode_utf8(front);
    decode_utf8_encode_utf8(back);
    lemma_encode_concat(decode_utf8(front), decode_utf8(back));
    encode_utf8_decode_utf8(decode_utf8(front) + decode_utf8(back));
}

/// The encoding of one scalar is well-formed and decodes to that scalar.
pub proof fn lemma_single_scalar(c: char)
    ensures
        encode_utf8(seq![c]) == encode_scalar(c as u32),
        valid_utf8(encode_scalar(c as u32)),
        decode_utf8(encode_scalar(c as u32)) == seq![c],
{
    let one = seq![c];
    assert(one.drop_first() =~= Seq::<char>::empty());
    assert(encode_utf8(one.drop_first()) =~= Seq::<u8>::empty()) by {
        reveal_with_fuel(encode_utf8, 1);
    }
    assert(encode_utf8(one) =~= encode_scalar(c as u32)) by {
        reveal_with_fuel(encode_utf8, 2);
    }
    encode_utf8_valid_utf8(one);
    encode_utf8_decode_utf8(one);
}

/// Well-formed byte strings that decode to the same text are the same bytes.
pub proof fn lemma_decode_injective(a: Seq<u8>, b: Seq<u8>)
    requires
        valid_utf8(a),
        valid_utf8(b),
        decode_utf8(a) == decode_utf8(b),
    ensures
        a == b,
{
    decode_utf8_encode_utf8(a);
    decode_utf8_encode_utf8(b);
}

/// A well-formed byte string does not open with a continuation byte.
pub proof fn lemma_first_byte_starts_scalar(bytes: Seq<u8>)
    requires
        valid_utf8(bytes),
        bytes.len() > 0,
    ensures
        !is_continuation_byte(bytes[0]),
{
}

/// Cutting a well-formed byte string at a byte that is no continuation byte,
/// or at its end, leaves a well-formed front whose text opens the whole text.
pub proof fn lemma_cut_at_boundary(bytes: Seq<u8>, cut: int)
    requires
        valid_utf8(bytes),
        0 <= cut <= bytes.len(),
        cut < bytes.len() ==> !is_continuation_byte(bytes[cut]),
    ensures
        is_char_boundary(bytes, cut),
        valid_utf8(bytes.subrange(0, cut)),
        valid_utf8(bytes.subrange(cut, bytes.len() as int)),
        decode_utf8(bytes) == decode_utf8(bytes.subrange(0, cut)) + decode_utf8(
            bytes.subrange(cut, bytes.len() as int),
        ),
        decode_utf8(bytes.subrange(0, cut)).is_prefix_of(decode_utf8(bytes)),
{
    if cut < bytes.len() {
        is_char_boundary_iff_not_is_continuation_byte(bytes, cut);
    } else {
        is_char_boundary_start_end_of_seq(bytes);
    }
    valid_utf8_split(bytes, cut);
    decode_utf8_split(bytes, cut);
}

/// Of any four neighbouring bytes of a well-formed byte string, one is no
/// continuation byte: a scalar takes four bytes at most.
pub proof fn lemma_boundary_within_four(bytes: Seq<u8>, at: int)
    requires
        valid_utf8(bytes),
        0 <= at,
        at + 3 < bytes.len(),
    ensures
        exists|k: int| at <= k <= at + 3 && !is_continuation_byte(#[trigger] bytes[k]),
    decreases bytes.len(),
{
    let first = length_of_first_scalar(bytes);
    let rest = pop_first_scalar(bytes);
    if at == 0 {
        assert(!is_continuation_byte(bytes[0]));
    } else if at < first {
        assert(first < bytes.len());
        assert(rest.len() > 0);
        assert(rest[0] == bytes[first]);
        lemma_first_byte_starts_scalar(rest);
        assert(at <= first <= at + 3 && !is_continuation_byte(bytes[first]));
    } else {
        lemma_boundary_within_four(rest, at - first);
        let k = choose|k: int|
            at - first <= k <= at - first + 3 && !is_continuation_byte(#[trigger] rest[k]);
        assert(rest[k] == bytes[k + first]);
        assert(at <= k + first <= at + 3 && !is_continuation_byte(bytes[k + first]));
    }
}

} // verus!
