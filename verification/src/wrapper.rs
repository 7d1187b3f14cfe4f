//! The string itself: a length over a buffer.
use crate::boundary::{floor_boundary, lemma_floor_boundary, trim_to_boundary};
use crate::buffer::Buffer;
use crate::bytes::copy_memory;
use crate::encoding::{encode_char, encoded_len};
use crate::utf8_facts::{
    lemma_cut_at_boundary, lemma_decode_concat, lemma_single_scalar, lemma_text_of_str,
};
use vstd::prelude::*;
use vstd::slice::slice_subrange;
use vstd::string::StringSliceAdditionalSpecFns;
use vstd::utf8::*;

verus! {

/// Why an append was refused.
#[derive(Debug, PartialEq, Eq, Structural)]
pub enum Error {
    /// The string has too little room left.
    InsufficientLength {
        /// The room that the append needed.
        expected: usize,
        /// The room that there was.
        actual: usize,
    },
}

/// Like `String`, but of fixed capacity and over a buffer of the caller's
/// choosing: `StringWrapper<[u8; 4]>` is a string without heap memory.
#[derive(Clone, Copy)]
pub struct StringWrapper<T: Buffer> {
    len: usize,
    buffer: T,
}

/// `base` with the bytes from `at` on replaced by `patch`, as far as `patch`
/// reaches.
pub open spec fn overwritten(base: Seq<u8>, at: int, patch: Seq<u8>) -> Seq<u8> {
    base.subrange(0, at) + patch + base.subrange(at + patch.len(), base.len() as int)
}

impl<T: Buffer> View for StringWrapper<T> {
    type V = Seq<char>;

    /// The text of the string.
    open spec fn view(&self) -> Seq<char> {
        decode_utf8(self.spec_bytes())
    }
}

impl<T: Buffer> StringWrapper<T> {
    /// The buffer under the string.
    pub closed spec fn storage(&self) -> T {
        self.buffer
    }

    /// The number of bytes of the buffer that the string takes up.
    pub closed spec fn spec_len(&self) -> usize {
        self.len
    }

    /// The number of bytes that the string can hold.
    pub open spec fn spec_capacity(&self) -> nat {
        self.storage().contents().len()
    }

    /// The bytes of the string: the buffer up to the length. Where the length
    /// lies behind the buffer's end, which `wf` rules out, the whole buffer.
    pub open spec fn spec_bytes(&self) -> Seq<u8> {
        let all = self.storage().contents();
        if self.spec_len() <= all.len() {
            all.subrange(0, self.spec_len() as int)
        } else {
            all
        }
    }

    /// The string is well-formed: its length lies within the buffer and its
    /// bytes are UTF-8.
    pub open spec fn wf(&self) -> bool {
        &&& self.spec_len() <= self.spec_capacity()
        &&& valid_utf8(self.spec_bytes())
    }

    /// Create an empty string from its backing storage.
    pub fn new(buffer: T) -> (s: Self)
        ensures
            s.wf(),
            s.storage() == buffer,
            s.spec_len() == 0,
            s.spec_bytes() == Seq::<u8>::empty(),
            s@ == Seq::<char>::empty(),
    {
        let s = StringWrapper { len: 0, buffer };
        assert(s.spec_bytes() =~= Seq::<u8>::empty());
        s
    }

    /// Return the maximum number of bytes the string can hold.
    pub fn capacity(&self) -> (n: usize)
        ensures
            n == self.spec_capacity(),
    {
        self.buffer.as_ref().len()
    }

    /// Return by how many bytes the string can grow.
    pub fn extra_capacity(&self) -> (n: usize)
        requires
            self.spec_len() <= self.spec_capacity(),
        ensures
            n == self.spec_capacity() - self.spec_len(),
    {
        self.capacity() - self.len
    }

    /// Return the slice of unused bytes after the string. Writing to it
    /// changes neither the string nor its capacity.
    pub fn extra_bytes_mut(&mut self) -> (tail: &mut [u8])
        requires
            old(self).spec_len() <= old(self).spec_capacity(),
        ensures
            tail@ == old(self).storage().contents().subrange(
                old(self).spec_len() as int,
                old(self).spec_capacity() as int,
            ),
            final(self).storage().contents() == old(self).spec_bytes() + final(tail)@,
            final(self).spec_len() == old(self).spec_len(),
            final(self).spec_bytes() == old(self).spec_bytes(),
            final(self).wf() == old(self).wf(),
            old(self).spec_capacity() <= usize::MAX,
    {
        let whole = self.buffer.as_mut();
        assert(whole@.len() == whole.len());
        let (head, tail) = whole.split_at_mut(self.len);
        proof {
            let joined = final(head)@ + final(tail)@;
            assert(joined.subrange(0, old(self).spec_len() as int) =~= old(self).spec_bytes());
        }
        tail
    }

    /// Append a code point to the string if the extra capacity is sufficient.
    ///
    /// Returns `Ok` with the code point appended, or `Err` with the string
    /// unchanged.
    pub fn push(&mut self, c: char) -> (r: Result<(), Error>)
        requires
            old(self).wf(),
            old(self).spec_len() + encode_scalar(c as u32).len() <= usize::MAX,
        ensures
            final(self).wf(),
            r is Ok <==> old(self).spec_len() + encode_scalar(c as u32).len() <= old(
                self,
            ).spec_capacity(),
            final(self).spec_capacity() == old(self).spec_capacity(),
            r is Ok ==> {
                &&& final(self).spec_len() == old(self).spec_len() + encode_scalar(c as u32).len()
                &&& final(self).storage().contents() == overwritten(
                    old(self).storage().contents(),
                    old(self).spec_len() as int,
                    encode_scalar(c as u32),
                )
                &&& final(self).spec_bytes() == old(self).spec_bytes() + encode_scalar(c as u32)
                &&& final(self)@ == old(self)@.push(c)
            },
            r is Err ==> {
                &&& r->Err_0->expected == old(self).spec_len() + encode_scalar(c as u32).len()
                &&& r->Err_0->actual == old(self).spec_capacity()
                &&& *final(self) == *old(self)
            },
    {
        let new_len = self.len + encoded_len(c);
        let capacity = self.capacity();
        if new_len <= capacity {
            let ghost before = self.buffer.contents();
            let tail = self.extra_bytes_mut();
            encode_char(c, tail);
            self.len = new_len;
            proof {
                let code = encode_scalar(c as u32);
                assert(self.buffer.contents() =~= overwritten(
                    before,
                    old(self).spec_len() as int,
                    code,
                ));
                assert(self.spec_bytes() =~= old(self).spec_bytes() + code);
                lemma_single_scalar(c);
                lemma_decode_concat(old(self).spec_bytes(), code);
                assert(old(self)@ + seq![c] =~= old(self)@.push(c));
            }
            Ok(())
        } else {
            Err(Error::InsufficientLength { expected: new_len, actual: capacity })
        }
    }

    /// Lays `text` into the unused bytes right behind the string and moves
    /// the end of the string behind it.
    pub(crate) fn append_bytes(&mut self, text: &[u8])
        requires
            old(self).spec_len() <= old(self).spec_capacity(),
            text@.len() <= old(self).spec_capacity() - old(self).spec_len(),
        ensures
            final(self).spec_len() == old(self).spec_len() + text@.len(),
            final(self).spec_capacity() == old(self).spec_capacity(),
            final(self).storage().contents() == overwritten(
                old(self).storage().contents(),
                old(self).spec_len() as int,
                text@,
            ),
            final(self).spec_bytes() == old(self).spec_bytes() + text@,
    {
        let ghost before = self.buffer.contents();
        let tail = self.extra_bytes_mut();
        copy_memory(text, tail);
        self.len = self.len + text.len();
        proof {
            assert(self.buffer.contents() =~= overwritten(
                before,
                old(self).spec_len() as int,
                text@,
            ));
            assert(self.spec_bytes() =~= old(self).spec_bytes() + text@);
        }
    }

    /// Append a string slice to the string, whole or not at all.
    ///
    /// Returns `Err` with the string unchanged where the extra capacity is
    /// not sufficient. The error then holds the length of `s` and the extra
    /// capacity.
    pub fn push_str(&mut self, s: &str) -> (r: Result<(), Error>)
        requires
            old(self).wf(),
        ensures
            final(self).wf(),
            r is Ok <==> s.spec_bytes().len() <= old(self).spec_capacity() - old(self).spec_len(),
            final(self).spec_capacity() == old(self).spec_capacity(),
            r is Ok ==> {
                &&& final(self).spec_len() == old(self).spec_len() + s.spec_bytes().len()
                &&& final(self).storage().contents() == overwritten(
                    old(self).storage().contents(),
                    old(self).spec_len() as int,
                    s.spec_bytes(),
                )
                &&& final(self).spec_bytes() == old(self).spec_bytes() + s.spec_bytes()
                &&& final(self)@ == old(self)@ + s@
            },
            r is Err ==> {
                &&& r->Err_0->expected == s.spec_bytes().len()
                &&& r->Err_0->actual == old(self).spec_capacity() - old(self).spec_len()
                &&& *final(self) == *old(self)
            },
    {
        let text = s.as_bytes();
        let room = self.extra_capacity();
        if room < text.len() {
            return Err(Error::InsufficientLength { expected: text.len(), actual: room });
        }
        self.append_bytes(text);
        proof {
            lemma_text_of_str(s);
            lemma_decode_concat(old(self).spec_bytes(), s.spec_bytes());
        }
        Ok(())
    }

    /// Append as much as possible of a string slice to the string: all of it
    /// where it fits, else its longest front that fits and ends between two
    /// scalars.
    ///
    /// Returns `Ok(())` if the extra capacity was sufficient, else `Err(n)`
    /// where `n` is the number of bytes pushed. `n` is within 3 bytes of the
    /// extra capacity.
    pub fn push_partial_str(&mut self, s: &str) -> (r: Result<(), usize>)
        requires
            old(self).wf(),
        ensures
            final(self).wf(),
            r is Ok <==> s.spec_bytes().len() <= old(self).spec_capacity() - old(self).spec_len(),
            r is Err ==> r->Err_0 == floor_boundary(
                s.spec_bytes(),
                old(self).spec_capacity() - old(self).spec_len(),
            ),
            ({
                let room = old(self).spec_capacity() - old(self).spec_len();
                let pushed = floor_boundary(s.spec_bytes(), room);
                let front = s.spec_bytes().subrange(0, pushed);
                &&& 0 <= pushed <= room
                &&& room <= s.spec_bytes().len() ==> room - pushed <= 3
                &&& is_char_boundary(s.spec_bytes(), pushed)
                &&& forall|j: int| pushed < j <= room ==> !is_char_boundary(s.spec_bytes(), j)
                &&& final(self).spec_len() == old(self).spec_len() + pushed
                &&& final(self).spec_capacity() == old(self).spec_capacity()
                &&& final(self).storage().contents() == overwritten(
                    old(self).storage().contents(),
                    old(self).spec_len() as int,
                    front,
                )
                &&& final(self).spec_bytes() == old(self).spec_bytes() + front
                &&& final(self)@ == old(self)@ + decode_utf8(front)
                &&& decode_utf8(front).is_prefix_of(s@)
            }),
    {
        let text = s.as_bytes();
        let room = self.extra_capacity();
        let (front, result) = if room < text.len() {
            let cut = trim_to_boundary(s, room);
            (slice_subrange(text, 0, cut), Err(cut))
        } else {
            (text, Ok(()))
        };
        proof {
            let pushed = floor_boundary(s.spec_bytes(), room as int);
            lemma_text_of_str(s);
            lemma_floor_boundary(s.spec_bytes(), room as int);
            assert(front@ =~= s.spec_bytes().subrange(0, pushed));
            if pushed < s.spec_bytes().len() {
                is_char_boundary_iff_not_is_continuation_byte(s.spec_bytes(), pushed);
            }
            lemma_cut_at_boundary(s.spec_bytes(), pushed);
            lemma_decode_concat(old(self).spec_bytes(), front@);
        }
        self.append_bytes(front);
        result
    }

    /// Shortens the string to `new_len` bytes. The buffer keeps the bytes
    /// that are cut off.
    ///
    /// `new_len` must not lie behind the end of the string, nor inside a
    /// scalar.
    pub fn truncate(&mut self, new_len: usize)
        requires
            old(self).wf(),
            new_len <= old(self).spec_len(),
            new_len < old(self).spec_len() ==> !is_continuation_byte(
                old(self).spec_bytes()[new_len as int],
            ),
        ensures
            final(self).wf(),
            final(self).spec_len() == new_len,
            final(self).storage() == old(self).storage(),
            final(self).spec_bytes() == old(self).spec_bytes().subrange(0, new_len as int),
            final(self)@.is_prefix_of(old(self)@),
    {
        proof {
            lemma_cut_at_boundary(self.spec_bytes(), new_len as int);
        }
        self.len = new_len;
        assert(self.spec_bytes() =~= old(self).spec_bytes().subrange(0, new_len as int));
    }

    /// Create a string from a buffer and the number of its bytes that hold
    /// the text.
    ///
    /// `len` must lie within the buffer, and the first `len` bytes of the
    /// buffer must be well-formed UTF-8.
    pub fn from_raw_parts(buffer: T, len: usize) -> (s: Self)
        requires
            len <= buffer.contents().len(),
            valid_utf8(buffer.contents().subrange(0, len as int)),
        ensures
            s.wf(),
            s.storage() == buffer,
            s.spec_len() == len,
    {
        StringWrapper { len, buffer }
    }

    /// Consume the string and return the backing storage.
    pub fn into_buffer(self) -> (buffer: T)
        ensures
            buffer == self.storage(),
    {
        self.buffer
    }

    /// View the backing storage as a bytes slice.
    pub fn buffer(&self) -> (whole: &[u8])
        ensures
            whole@ == self.storage().contents(),
    {
        self.buffer.as_ref()
    }

    /// View the backing storage as a mutable bytes slice.
    ///
    /// The string is well-formed afterwards only if the slice is left with
    /// well-formed UTF-8 in its first `len` bytes.
    pub fn buffer_mut(&mut self) -> (whole: &mut [u8])
        ensures
            whole@ == old(self).storage().contents(),
            final(self).storage().contents() == final(whole)@,
            final(self).spec_len() == old(self).spec_len(),
    {
        self.buffer.as_mut()
    }

    /// Return the number of bytes in the string.
    pub fn len(&self) -> (n: usize)
        ensures
            n == self.spec_len(),
    {
        self.len
    }

    /// Return whether the string contains no bytes.
    pub fn is_empty(&self) -> (empty: bool)
        ensures
            empty == (self.spec_len() == 0),
    {
        self.len == 0
    }

    /// Change the length in bytes of the string. The buffer stays as it is.
    ///
    /// `new_len` must lie within the buffer, and the first `new_len` bytes of
    /// the buffer must be well-formed UTF-8.
    pub fn set_len(&mut self, new_len: usize)
        requires
            new_len <= old(self).spec_capacity(),
            valid_utf8(old(self).storage().contents().subrange(0, new_len as int)),
        ensures
            final(self).wf(),
            final(self).spec_len() == new_len,
            final(self).storage() == old(self).storage(),
    {
        self.len = new_len;
    }

    /// The bytes of the string as a slice.
    pub fn as_bytes(&self) -> (text: &[u8])
        ensures
            text@ == self.spec_bytes(),
    {
        let whole = self.buffer.as_ref();
        if self.len <= whole.len() {
            slice_subrange(whole, 0, self.len)
        } else {
            whole
        }
    }
}

} // verus!
