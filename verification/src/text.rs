//! The string as text: reading it as a `str`, building it from one.
use crate::buffer::{Buffer, OwnedBuffer};
use crate::boundary::floor_boundary;
use crate::utf8_facts::{lemma_decode_concat, lemma_text_of_str};
use crate::wrapper::{overwritten, Error, StringWrapper};
use core::hash::Hash;
use core::ops::Deref;
use core::str::FromStr;
use vstd::prelude::*;
use vstd::string::StringSliceAdditionalSpecFns;
use vstd::utf8::*;

verus! {

impl<T: Buffer> Deref for StringWrapper<T> {
    type Target = str;

    /// The text of the string. A string that is not well-formed reads as
    /// the empty text.
    fn deref(&self) -> (text: &str)
        ensures
            valid_utf8(self.spec_bytes()) ==> text.spec_bytes() == self.spec_bytes() && text@
                == self@,
            !valid_utf8(self.spec_bytes()) ==> text@ == Seq::<char>::empty(),
    {
        match core::str::from_utf8(self.as_bytes()) {
            Ok(text) => {
                proof {
                    lemma_text_of_str(text);
                }
                text
            },
            Err(_) => {
                proof {
                    reveal_strlit("");
                }
                ""
            },
        }
    }
}

impl<T: Buffer> Hash for StringWrapper<T> {
    /// Hashes the text of the string, as `str` hashes it.
    fn hash<H: core::hash::Hasher>(&self, state: &mut H) {
        self.deref().hash(state)
    }
}

/// Whether `text` is what a string with the bytes `bytes` reads as: the
/// text that they encode, or the empty text where they are not well-formed.
pub open spec fn reads_as(text: &str, bytes: Seq<u8>) -> bool {
    if valid_utf8(bytes) {
        text.spec_bytes() == bytes && text@ == decode_utf8(bytes)
    } else {
        text@ == Seq::<char>::empty()
    }
}

impl<T: Buffer> core::borrow::Borrow<str> for StringWrapper<T> {
    /// The text of the string, as `deref` gives it.
    fn borrow(&self) -> (text: &str)
        ensures
            reads_as(text, self.spec_bytes()),
    {
        self.deref()
    }
}

impl<T: Buffer + Default> Default for StringWrapper<T> {
    /// The empty string over the default buffer.
    fn default() -> (s: Self)
        ensures
            s.wf(),
            s.spec_len() == 0,
            s@ == Seq::<char>::empty(),
    {
        StringWrapper::new(T::default())
    }
}

impl<T: OwnedBuffer> FromStr for StringWrapper<T> {
    type Err = Error;

    /// A string over a fresh buffer that holds all of `s`, or an error where
    /// the buffer is too small for it.
    fn from_str(s: &str) -> (r: Result<Self, Error>)
        ensures
            r is Ok <==> s.spec_bytes().len() <= T::fresh_len(),
            r is Ok ==> {
                &&& r->Ok_0.wf()
                &&& r->Ok_0.spec_capacity() == T::fresh_len()
                &&& r->Ok_0.spec_bytes() == s.spec_bytes()
                &&& r->Ok_0@ == s@
            },
            r is Err ==> {
                &&& r->Err_0->expected == s.spec_bytes().len()
                &&& r->Err_0->actual == T::fresh_len()
            },
    {
        let mut fresh = StringWrapper::new(T::new());
        match fresh.push_str(s) {
            Ok(()) => {
                assert(fresh.spec_bytes() =~= s.spec_bytes());
                assert(fresh@ =~= s@);
                Ok(fresh)
            },
            Err(e) => Err(e),
        }
    }
}

impl<T: OwnedBuffer> StringWrapper<T> {
    /// A string over a fresh buffer that holds as much of `s` as fits: all
    /// of it, or its longest front that fits and ends between two scalars.
    /// It is never `None`.
    #[must_use]
    pub fn from_str_safe(s: &str) -> (r: Option<StringWrapper<T>>)
        ensures
            r is Some,
            r->0.wf(),
            r->0.spec_capacity() == T::fresh_len(),
            r->0.spec_bytes() == s.spec_bytes().subrange(
                0,
                floor_boundary(s.spec_bytes(), T::fresh_len() as int),
            ),
            r->0@.is_prefix_of(s@),
            s.spec_bytes().len() <= T::fresh_len() ==> r->0@ == s@,
    {
        let mut fresh = StringWrapper::new(T::new());
        let _ = fresh.push_partial_str(s);
        proof {
            let front = s.spec_bytes().subrange(
                0,
                floor_boundary(s.spec_bytes(), T::fresh_len() as int),
            );
            assert(fresh.spec_bytes() =~= front);
            assert(fresh@ =~= decode_utf8(front));
            if s.spec_bytes().len() <= T::fresh_len() {
                assert(front =~= s.spec_bytes());
                lemma_text_of_str(s);
            }
        }
        Some(fresh)
    }
}

impl<T: Buffer> core::fmt::Write for StringWrapper<T> {
    /// Appends `s` whole, or fails and leaves the string as it is where `s`
    /// does not fit.
    fn write_str(&mut self, s: &str) -> (r: Result<(), core::fmt::Error>)
        ensures
            r is Ok <==> old(self).spec_len() + s.spec_bytes().len() <= old(self).spec_capacity(),
            r is Ok ==> {
                &&& final(self).spec_len() == old(self).spec_len() + s.spec_bytes().len()
                &&& final(self).spec_capacity() == old(self).spec_capacity()
                &&& final(self).storage().contents() == overwritten(
                    old(self).storage().contents(),
                    old(self).spec_len() as int,
                    s.spec_bytes(),
                )
                &&& final(self).spec_bytes() == old(self).spec_bytes() + s.spec_bytes()
            },
            r is Err ==> *final(self) == *old(self),
            old(self).wf() ==> final(self).wf(),
            old(self).wf() && r is Ok ==> final(self)@ == old(self)@ + s@,
    {
        let text = s.as_bytes();
        let len = self.len();
        let capacity = self.capacity();
        if len <= capacity && text.len() <= capacity - len {
            self.append_bytes(text);
            proof {
                if old(self).wf() {
                    lemma_text_of_str(s);
                    lemma_decode_concat(old(self).spec_bytes(), s.spec_bytes());
                }
            }
            Ok(())
        } else {
            Err(core::fmt::Error::default())
        }
    }
}

impl<T: Buffer> core::fmt::Display for StringWrapper<T> {
    /// Renders the text of the string, and nothing else of its buffer.
    fn fmt(&self, f: &mut core::fmt::Formatter<'_>) -> Result<(), core::fmt::Error> {
        core::fmt::Display::fmt(self.deref(), f)
    }
}

impl<T: Buffer> core::fmt::Debug for StringWrapper<T> {
    /// Renders the text of the string as `str` renders for debugging, and
    /// nothing else of its buffer.
    fn fmt(&self, f: &mut core::fmt::Formatter<'_>) -> Result<(), core::fmt::Error> {
        core::fmt::Debug::fmt(self.deref(), f)
    }
}

impl<T: Buffer> core::ops::DerefMut for StringWrapper<T> {
    /// The text of the string, to be changed in place. What the text holds
    /// when the borrow ends is what the string holds, in front of the unused
    /// bytes of its buffer; the length of the string stays. A string that is
    /// not well-formed gives the empty text and stays as it is.
    fn deref_mut(&mut self) -> (text: &mut str)
        ensures
            final(self).spec_len() == old(self).spec_len(),
            valid_utf8(old(self).spec_bytes()) ==> {
                &&& text.spec_bytes() == old(self).spec_bytes()
                &&& text@ == old(self)@
                &&& final(self).storage().contents() == final(text).spec_bytes() + old(
                    self,
                ).storage().contents().subrange(
                    old(self).spec_bytes().len() as int,
                    old(self).spec_capacity() as int,
                )
            },
            !valid_utf8(old(self).spec_bytes()) ==> {
                &&& text@ == Seq::<char>::empty()
                &&& final(self).storage().contents() == old(self).storage().contents()
            },
    {
        let len = self.len();
        let whole = self.buffer_mut();
        let cut = if len <= whole.len() {
            len
        } else {
            whole.len()
        };
        let (head, tail) = whole.split_at_mut(cut);
        assert(head@ + tail@ =~= old(self).storage().contents());
        match core::str::from_utf8_mut(head) {
            Ok(text) => {
                proof {
                    lemma_text_of_str(text);
                }
                text
            },
            Err(_) => {
                match core::str::from_utf8_mut(&mut []) {
                    Ok(empty) => {
                        proof {
                            lemma_text_of_str(empty);
                        }
                        empty
                    },
                    Err(_) => vstd::pervasive::unreached(),
                }
            },
        }
    }
}

} // verus!
