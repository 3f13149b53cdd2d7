//! The contract of a buffer for ancillary data: the control messages that travel beside a
//! socket's payload.
//!
//! A buffer is a run of bytes of which a prefix is valid: written by a receive call, or by
//! the caller, and safe to read. The rest is scratch space. Beside the bytes it holds a
//! context collector, where facts found while the bytes are read are kept for later.
use vstd::prelude::*;

verus! {

/// Why a buffer did not grow.
#[derive(Clone, Copy, Debug, PartialEq, Eq, Structural)]
pub enum ReserveError {
    /// The buffer has a fixed size.
    Unsupported,
    /// The new size does not fit in memory, or the allocation failed.
    Failed,
}

/// Result of an attempt to grow a buffer.
pub type ReserveResult = Result<(), ReserveError>;

/// What a buffer that cannot grow answers to a request to grow: that it cannot.
pub fn reserve_unsupported(additional: usize) -> (r: ReserveResult)
    ensures
        r == Err::<(), ReserveError>(ReserveError::Unsupported),
{
    Err(ReserveError::Unsupported)
}

/// A type which can be used as a buffer for ancillary data.
///
/// The model of a buffer is its bytes (valid and scratch alike), the length of the valid
/// prefix, which `set_len` keeps within the number of bytes, and its context collector. Only
/// `reserve` and `reserve_exact` change the number of bytes, and only `set_len` changes the
/// length of the valid prefix. The bytes and the collector are apart: writing to one
/// leaves the other as it was.
pub trait CmsgMut {
    /// The context collector contained in the buffer.
    type Context;

    /// The whole buffer, its valid prefix and the scratch space after it.
    spec fn bytes(&self) -> Seq<u8>;

    /// How many bytes at the start of the buffer are valid.
    spec fn valid(&self) -> nat;

    /// The context collector.
    spec fn collector(&self) -> Self::Context;

    /// Whether the buffer may grow. A buffer that overrides neither `reserve` nor
    /// `reserve_exact` does not.
    open spec fn grows(&self) -> bool {
        false
    }

    /// Returns the entire buffer, both its valid and its scratch part.
    fn as_bytes(&self) -> (r: &[u8])
        ensures
            r@ == self.bytes(),
    ;

    /// Returns the entire buffer, both its valid and its scratch part, for writing. What is
    /// written there becomes the buffer's bytes; the valid length and the collector stay.
    fn as_bytes_mut(&mut self) -> (r: &mut [u8])
        ensures
            r@ == old(self).bytes(),
            final(self).bytes() == final(r)@,
            final(self).valid() == old(self).valid(),
            final(self).collector() == old(self).collector(),
    ;

    /// Returns how many bytes at the start of the buffer are valid.
    fn valid_len(&self) -> (r: usize)
        ensures
            r == self.valid(),
    ;

    /// Sets how many bytes at the start of the buffer are valid. The caller vouches that
    /// those bytes are valid ancillary data.
    fn set_len(&mut self, new_len: usize)
        requires
            new_len <= old(self).bytes().len(),
        ensures
            final(self).valid() == new_len,
            final(self).bytes() == old(self).bytes(),
            final(self).collector() == old(self).collector(),
    ;

    /// Borrows the context collector.
    fn context(&self) -> (r: &Self::Context)
        ensures
            *r == self.collector(),
    ;

    /// Borrows the context collector for writing. What is written there becomes the
    /// buffer's collector; the bytes and the valid length stay.
    fn context_mut(&mut self) -> (r: &mut Self::Context)
        ensures
            *r == old(self).collector(),
            final(self).collector() == *final(r),
            final(self).bytes() == old(self).bytes(),
            final(self).valid() == old(self).valid(),
    ;

    /// Attempts to grow the buffer by at least `additional` bytes. On success the valid
    /// prefix is kept; on failure nothing changes. Buffers that cannot grow answer
    /// `Unsupported`.
    fn reserve(&mut self, additional: usize) -> (r: ReserveResult)
        ensures
            r is Ok ==> final(self).bytes().len() >= old(self).bytes().len() + additional
                && final(self).bytes().take(old(self).valid() as int) == old(self).bytes().take(
                old(self).valid() as int,
            ),
            r is Err ==> final(self).bytes() == old(self).bytes(),
            !old(self).grows() ==> r == Err::<(), ReserveError>(ReserveError::Unsupported),
            final(self).valid() == old(self).valid(),
            final(self).collector() == old(self).collector(),
    {
        reserve_unsupported(additional)
    }

    /// Like `reserve`, but asks for no more than `additional` bytes, where the buffer can
    /// choose.
    fn reserve_exact(&mut self, additional: usize) -> (r: ReserveResult)
        ensures
            r is Ok ==> final(self).bytes().len() >= old(self).bytes().len() + additional
                && final(self).bytes().take(old(self).valid() as int) == old(self).bytes().take(
                old(self).valid() as int,
            ),
            r is Err ==> final(self).bytes() == old(self).bytes(),
            !old(self).grows() ==> r == Err::<(), ReserveError>(ReserveError::Unsupported),
            final(self).valid() == old(self).valid(),
            final(self).collector() == old(self).collector(),
    {
        reserve_unsupported(additional)
    }
}

/// A buffer of fixed size that owns its bytes and its collector.
pub struct CmsgBuf<C> {
    buf: Vec<u8>,
    valid: usize,
    context: C,
}

impl<C> CmsgBuf<C> {
    /// A buffer of `capacity` zero bytes, none of them valid, with the collector `context`.
    pub fn new(capacity: usize, context: C) -> (r: Self)
        ensures
            r.bytes() == Seq::new(capacity as nat, |i: int| 0u8),
            r.valid() == 0,
            r.collector() == context,
    {
        let mut buf: Vec<u8> = Vec::new();
        let mut i: usize = 0;
        while i < capacity
            invariant
                i <= capacity,
                buf@ == Seq::new(i as nat, |k: int| 0u8),
            decreases capacity - i,
        {
            buf.push(0u8);
            i = i + 1;
        }
        assert(buf@ =~= Seq::new(capacity as nat, |k: int| 0u8));
        CmsgBuf { buf, valid: 0, context }
    }
}

impl<C> CmsgMut for CmsgBuf<C> {
    type Context = C;

    closed spec fn bytes(&self) -> Seq<u8> {
        self.buf@
    }

    closed spec fn valid(&self) -> nat {
        self.valid as nat
    }

    closed spec fn collector(&self) -> C {
        self.context
    }

    fn as_bytes(&self) -> (r: &[u8]) {
        self.buf.as_slice()
    }

    fn as_bytes_mut(&mut self) -> (r: &mut [u8]) {
        self.buf.as_mut_slice()
    }

    fn valid_len(&self) -> (r: usize) {
        self.valid
    }

    fn set_len(&mut self, new_len: usize) {
        self.valid = new_len;
    }

    fn context(&self) -> (r: &C) {
        &self.context
    }

    fn context_mut(&mut self) -> (r: &mut C) {
        &mut self.context
    }
}

} // verus!
