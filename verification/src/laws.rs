//! What holds of every well-formed string, whatever its buffer.
use crate::buffer::{Buffer, OwnedBuffer};
use crate::compare::{lemma_lex_order_equal, lex_order};
use crate::interchange::fits;
use crate::utf8_facts::lemma_decode_injective;
use crate::wrapper::StringWrapper;
use core::cmp::Ordering;
use vstd::prelude::*;
use vstd::std_specs::cmp::{PartialEqSpec, PartialOrdSpec};
use vstd::utf8::*;

verus! {

/// A well-formed string holds well-formed UTF-8 in exactly `spec_len` bytes,
/// which its capacity covers, and those bytes are the encoding of its text.
pub proof fn lemma_wf_text<T: Buffer>(s: StringWrapper<T>)
    requires
        s.wf(),
    ensures
        valid_utf8(s.spec_bytes()),
        s.spec_bytes().len() == s.spec_len(),
        s.spec_bytes().len() <= s.spec_capacity(),
        s.spec_bytes() == s.storage().contents().take(s.spec_len() as int),
        encode_utf8(s@) == s.spec_bytes(),
{
    decode_utf8_encode_utf8(s.spec_bytes());
}

/// Two well-formed strings hold the same bytes exactly where they hold the
/// same text: neither their capacities, nor what lies in their buffers
/// behind the text, nor the kinds of their buffers come into it.
pub proof fn lemma_same_text_same_bytes<T: Buffer, U: Buffer>(
    a: StringWrapper<T>,
    b: StringWrapper<U>,
)
    requires
        a.wf(),
        b.wf(),
    ensures
        a@ == b@ <==> a.spec_bytes() == b.spec_bytes(),
{
    if a@ == b@ {
        lemma_decode_injective(a.spec_bytes(), b.spec_bytes());
    }
}

/// `==` on well-formed strings is equality of their texts.
pub proof fn lemma_eq_is_text_equality<T: Buffer>(a: StringWrapper<T>, b: StringWrapper<T>)
    requires
        a.wf(),
        b.wf(),
    ensures
        a.eq_spec(&b) <==> a@ == b@,
{
    lemma_same_text_same_bytes(a, b);
}

/// Well-formed strings with the same text are equal in order, not only
/// comparable, and no others are.
pub proof fn lemma_order_equal_is_text_equality<T: Buffer>(
    a: StringWrapper<T>,
    b: StringWrapper<T>,
)
    requires
        a.wf(),
        b.wf(),
    ensures
        a.partial_cmp_spec(&b) == Some(Ordering::Equal) <==> a@ == b@,
        lex_order(a.spec_bytes(), b.spec_bytes()) == Ordering::Equal <==> a@ == b@,
{
    lemma_same_text_same_bytes(a, b);
    lemma_lex_order_equal(a.spec_bytes(), b.spec_bytes());
}

/// The text of a well-formed string can be read back into a fresh buffer of
/// kind `U` exactly where `U` is at least as large as the string is long.
pub proof fn lemma_text_fits_larger_buffer<T: Buffer, U: OwnedBuffer>(s: StringWrapper<T>)
    requires
        s.wf(),
    ensures
        fits::<U>(s@) <==> s.spec_len() <= U::fresh_len(),
{
    lemma_wf_text(s);
}

} // verus!
