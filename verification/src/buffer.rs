//! Byte storage that a string can be laid over.
use vstd::prelude::*;

verus! {

/// A contiguous region of bytes that can be looked at and written to.
///
/// `contents` is the model of the region. Both accessors hand out the same
/// region: what `as_ref` shows is `contents`, what `as_mut` shows is
/// `contents` until the borrow is written through, and whatever the borrow
/// holds when it ends is the new `contents`.
pub trait Buffer {
    /// The bytes of the region, first to last.
    spec fn contents(&self) -> Seq<u8>;

    /// The region as a slice.
    fn as_ref(&self) -> (region: &[u8])
        ensures
            region@ == self.contents(),
    ;

    /// The region as a mutable slice.
    fn as_mut(&mut self) -> (region: &mut [u8])
        ensures
            region@ == (*old(self)).contents(),
            (*final(self)).contents() == final(region)@,
    ;
}

/// A buffer that can be made from nothing, always of one size.
pub trait OwnedBuffer: Buffer + Sized {
    /// The number of bytes in every buffer that `new` makes.
    spec fn fresh_len() -> nat;

    /// A new buffer to start a string in.
    fn new() -> (fresh: Self)
        ensures
            fresh.contents().len() == Self::fresh_len(),
    ;
}

impl<'a, T: ?Sized + Buffer> Buffer for &'a mut T {
    open spec fn contents(&self) -> Seq<u8> {
        (**self).contents()
    }

    fn as_ref(&self) -> (region: &[u8]) {
        (**self).as_ref()
    }

    fn as_mut(&mut self) -> (region: &mut [u8]) {
        (**self).as_mut()
    }
}

impl<T: ?Sized + Buffer> Buffer for Box<T> {
    open spec fn contents(&self) -> Seq<u8> {
        (**self).contents()
    }

    fn as_ref(&self) -> (region: &[u8]) {
        (**self).as_ref()
    }

    fn as_mut(&mut self) -> (region: &mut [u8]) {
        (**self).as_mut()
    }
}

impl Buffer for Vec<u8> {
    open spec fn contents(&self) -> Seq<u8> {
        self@
    }

    fn as_ref(&self) -> (region: &[u8]) {
        self.as_slice()
    }

    fn as_mut(&mut self) -> (region: &mut [u8]) {
        self.as_mut_slice()
    }
}

impl Buffer for [u8] {
    open spec fn contents(&self) -> Seq<u8> {
        self@
    }

    fn as_ref(&self) -> (region: &[u8]) {
        self
    }

    fn as_mut(&mut self) -> (region: &mut [u8]) {
        self
    }
}

impl<const N: usize> Buffer for [u8; N] {
    open spec fn contents(&self) -> Seq<u8> {
        self@
    }

    fn as_ref(&self) -> (region: &[u8]) {
        self
    }

    fn as_mut(&mut self) -> (region: &mut [u8]) {
        self
    }
}

impl<const N: usize> OwnedBuffer for [u8; N] {
    open spec fn fresh_len() -> nat {
        N as nat
    }

    fn new() -> (fresh: Self)
        ensures
            forall|i: int| 0 <= i < N ==> fresh@[i] == 0,
    {
        [0u8;N]
    }
}

} // verus!
