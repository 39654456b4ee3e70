//! The buffer capability and the storage kinds that provide it.

use vstd::prelude::*;

verus! {

/// A contiguous region of bytes with a logical length.
pub trait Buffer {
    /// The logical length, in bytes.
    spec fn len_spec(&self) -> nat;

    /// Whether `after` is what a reset makes of this buffer.
    spec fn resets_to(&self, after: &Self) -> bool;

    /// Returns the logical length in bytes.
    fn size(&self) -> (n: usize)
        ensures
            n == self.len_spec(),
    ;

    /// Restores the default logical length without releasing the backing storage.
    fn reset(&mut self)
        ensures
            old(self).resets_to(final(self)),
    ;
}

impl<const N: usize> Buffer for [u8; N] {
    open spec fn len_spec(&self) -> nat {
        N as nat
    }

    open spec fn resets_to(&self, after: &Self) -> bool {
        *after == *self
    }

    fn size(&self) -> (n: usize) {
        N
    }

    fn reset(&mut self) {
    }
}

impl Buffer for [u8] {
    open spec fn len_spec(&self) -> nat {
        self@.len()
    }

    open spec fn resets_to(&self, after: &Self) -> bool {
        after@ == self@
    }

    fn size(&self) -> (n: usize) {
        self.len()
    }

    fn reset(&mut self) {
    }
}

impl Buffer for Vec<u8> {
    open spec fn len_spec(&self) -> nat {
        self@.len()
    }

    open spec fn resets_to(&self, after: &Self) -> bool {
        after@ == Seq::<u8>::empty()
    }

    fn size(&self) -> (n: usize) {
        self.len()
    }

    fn reset(&mut self) {
        self.clear();
    }
}

impl Buffer for Box<[u8]> {
    open spec fn len_spec(&self) -> nat {
        self@.len()
    }

    open spec fn resets_to(&self, after: &Self) -> bool {
        after@ == self@
    }

    fn size(&self) -> (n: usize) {
        self.len()
    }

    fn reset(&mut self) {
    }
}

/// A buffer seen through a logical length that can only shrink.
pub struct Resize<B> {
    buf: B,
    len: usize,
}

impl<B: Buffer> Resize<B> {
    /// The wrapped buffer.
    pub closed spec fn inner(&self) -> B {
        self.buf
    }

    /// The clamped logical length.
    pub closed spec fn clamp(&self) -> nat {
        self.len as nat
    }

    /// Wraps `buf` at its full logical length.
    pub fn new(buf: B) -> (r: Self)
        ensures
            r.inner() == buf,
            r.clamp() == buf.len_spec(),
    {
        let len = buf.size();
        Resize { buf, len }
    }

    /// Wraps `buf` at the smaller of its logical length and `len`.
    pub fn new_with_size(buf: B, len: usize) -> (r: Self)
        ensures
            r.inner() == buf,
            r.clamp() == vstd::math::min(buf.len_spec() as int, len as int),
    {
        let size = buf.size();
        let len = if size < len { size } else { len };
        Resize { buf, len }
    }

    /// Returns the wrapped buffer.
    pub fn get_ref(&self) -> (buf: &B)
        ensures
            *buf == self.inner(),
    {
        &self.buf
    }

    /// Lowers the logical length to `len`; a larger `len` changes nothing.
    pub fn resize(&mut self, len: usize)
        ensures
            final(self).inner() == old(self).inner(),
            final(self).clamp() == vstd::math::min(old(self).clamp() as int, len as int),
            final(self).clamp() <= old(self).clamp(),
    {
        if len < self.len {
            self.len = len;
        }
    }
}

impl<B: Buffer> Buffer for Resize<B> {
    open spec fn len_spec(&self) -> nat {
        self.clamp()
    }

    open spec fn resets_to(&self, after: &Self) -> bool {
        after.clamp() == self.clamp() && self.inner().resets_to(&after.inner())
    }

    fn size(&self) -> (n: usize) {
        self.len
    }

    fn reset(&mut self) {
        self.buf.reset();
    }
}

} // verus!
