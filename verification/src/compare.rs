//! Equality and order of strings: by their text, never by what else lies in
//! their buffers.
use crate::buffer::Buffer;
use crate::bytes::{lemma_rest_step, rest, same_bytes};
use crate::wrapper::StringWrapper;
use core::cmp::Ordering;
use vstd::prelude::*;
use vstd::std_specs::cmp::{PartialEqSpecImpl, PartialOrdSpecImpl};

verus! {

/// How `a` stands to `b` in the order of `str`: byte by byte, the first
/// difference decides, and a proper front comes before the whole.
pub open spec fn lex_order(a: Seq<u8>, b: Seq<u8>) -> Ordering
    decreases a.len(),
{
    if a.len() == 0 {
        if b.len() == 0 {
            Ordering::Equal
        } else {
            Ordering::Less
        }
    } else if b.len() == 0 {
        Ordering::Greater
    } else if a[0] < b[0] {
        Ordering::Less
    } else if a[0] > b[0] {
        Ordering::Greater
    } else {
        lex_order(a.drop_first(), b.drop_first())
    }
}

/// Byte strings are equal in order exactly where they are the same.
pub proof fn lemma_lex_order_equal(a: Seq<u8>, b: Seq<u8>)
    ensures
        lex_order(a, b) == Ordering::Equal <==> a == b,
    decreases a.len(),
{
    if a.len() == 0 || b.len() == 0 {
        if a.len() == 0 && b.len() == 0 {
            assert(a =~= b);
        }
    } else {
        lemma_lex_order_equal(a.drop_first(), b.drop_first());
        if a[0] == b[0] && a.drop_first() == b.drop_first() {
            assert(a =~= seq![a[0]] + a.drop_first());
            assert(b =~= seq![b[0]] + b.drop_first());
        }
    }
}

/// `a` and `b` agree in their first `k` bytes, and part ways there: one of
/// them ends, or their bytes at `k` differ.
pub open spec fn part_ways_at(a: Seq<u8>, b: Seq<u8>, k: int) -> bool {
    &&& 0 <= k <= a.len()
    &&& k <= b.len()
    &&& a.subrange(0, k) == b.subrange(0, k)
    &&& (k == a.len() || k == b.len() || a[k] != b[k])
}

/// The place where two byte strings part ways decides their order: the one
/// that ends there comes first, else the one with the smaller byte there.
pub proof fn lemma_lex_order_decided(a: Seq<u8>, b: Seq<u8>, k: int)
    requires
        part_ways_at(a, b, k),
    ensures
        lex_order(a, b) == Ordering::Equal <==> k == a.len() && k == b.len(),
        lex_order(a, b) == Ordering::Less <==> k < b.len() && (k == a.len() || a[k] < b[k]),
        lex_order(a, b) == Ordering::Greater <==> k < a.len() && (k == b.len() || a[k] > b[k]),
    decreases k,
{
    if k > 0 {
        assert(a[0] == a.subrange(0, k)[0]);
        assert(b[0] == b.subrange(0, k)[0]);
        assert(a.drop_first().subrange(0, k - 1) =~= a.subrange(0, k).drop_first());
        assert(b.drop_first().subrange(0, k - 1) =~= b.subrange(0, k).drop_first());
        lemma_lex_order_decided(a.drop_first(), b.drop_first(), k - 1);
    }
}

/// Compares two slices in the order of `str`.
pub fn compare_bytes(a: &[u8], b: &[u8]) -> (order: Ordering)
    ensures
        order == lex_order(a@, b@),
{
    let mut i: usize = 0;
    assert(rest(a@, 0) =~= a@);
    assert(rest(b@, 0) =~= b@);
    while i < a.len() && i < b.len()
        invariant
            i <= a@.len(),
            i <= b@.len(),
            lex_order(a@, b@) == lex_order(rest(a@, i), rest(b@, i)),
        decreases a@.len() - i,
    {
        proof {
            lemma_rest_step(a@, i);
            lemma_rest_step(b@, i);
        }
        if a[i] < b[i] {
            return Ordering::Less;
        }
        if a[i] > b[i] {
            return Ordering::Greater;
        }
        i += 1;
    }
    if i < a.len() {
        proof {
            lemma_rest_step(a@, i);
        }
        Ordering::Greater
    } else if i < b.len() {
        proof {
            lemma_rest_step(b@, i);
        }
        Ordering::Less
    } else {
        Ordering::Equal
    }
}

impl<T: Buffer> PartialEq for StringWrapper<T> {
    /// Whether the two strings hold the same text.
    fn eq(&self, other: &Self) -> (same: bool) {
        same_bytes(self.as_bytes(), other.as_bytes())
    }
}

impl<T: Buffer> PartialEqSpecImpl for StringWrapper<T> {
    open spec fn obeys_eq_spec() -> bool {
        true
    }

    open spec fn eq_spec(&self, other: &Self) -> bool {
        self.spec_bytes() == other.spec_bytes()
    }
}

impl<T: Buffer> Eq for StringWrapper<T> {}

impl<T: Buffer> PartialOrd for StringWrapper<T> {
    /// How the text of this string stands to that of `other`.
    fn partial_cmp(&self, other: &Self) -> (order: Option<Ordering>) {
        Some(compare_bytes(self.as_bytes(), other.as_bytes()))
    }
}

impl<T: Buffer> PartialOrdSpecImpl for StringWrapper<T> {
    open spec fn obeys_partial_cmp_spec() -> bool {
        true
    }

    open spec fn partial_cmp_spec(&self, other: &Self) -> Option<Ordering> {
        Some(lex_order(self.spec_bytes(), other.spec_bytes()))
    }
}

impl<T: Buffer> StringWrapper<T> {
    /// How the text of this string stands to that of `other`, in the order
    /// of `str`.
    pub fn cmp(&self, other: &Self) -> (order: Ordering)
        ensures
            order == lex_order(self.spec_bytes(), other.spec_bytes()),
    {
        compare_bytes(self.as_bytes(), other.as_bytes())
    }
}

} // verus!
