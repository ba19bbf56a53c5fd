//! The small inline byte buffers that hold a writer's constant prefix and suffix.
//!
//! A buffer is a `smallvec::SmallVec<[u8; 8]>`. Nothing in this file is proved:
//! each function states what the `smallvec` function it calls does.

use smallvec::SmallVec;
use vstd::prelude::*;

verus! {

/// A byte buffer that keeps up to eight bytes inline.
#[verifier::external_body]
pub struct InlineBytes {
    inner: SmallVec<[u8; 8]>,
}

/// The bytes that a buffer holds, first to last.
pub uninterp spec fn inline_contents(v: InlineBytes) -> Seq<u8>;

/// `SmallVec::new`: a buffer that holds nothing.
#[verifier::external_body]
pub(crate) fn inline_new() -> (v: InlineBytes)
    ensures
        inline_contents(v) == Seq::<u8>::empty(),
{
    InlineBytes { inner: SmallVec::new() }
}

/// `SmallVec::clear`: afterwards the buffer holds nothing.
#[verifier::external_body]
pub(crate) fn inline_clear(v: &mut InlineBytes)
    ensures
        inline_contents(*final(v)) == Seq::<u8>::empty(),
{
    v.inner.clear()
}

/// `SmallVec::extend_from_slice`: the bytes of `s` are appended in order.
/// When it has to grow, the call asks for the next power of two at or above
/// the new length and panics where that exceeds `isize::MAX`; a new length of
/// at most a quarter of `usize::MAX` stays below that.
#[verifier::external_body]
pub(crate) fn inline_extend_from_slice(v: &mut InlineBytes, s: &[u8])
    requires
        inline_contents(*old(v)).len() + s@.len() <= usize::MAX / 4,
    ensures
        inline_contents(*final(v)) == inline_contents(*old(v)) + s@,
{
    v.inner.extend_from_slice(s)
}

/// `SmallVec::len`: the number of bytes held.
#[verifier::external_body]
pub(crate) fn inline_len(v: &InlineBytes) -> (n: usize)
    ensures
        n == inline_contents(*v).len(),
{
    v.inner.len()
}

/// `SmallVec::as_slice`: the bytes held, as a slice.
#[verifier::external_body]
pub(crate) fn inline_as_slice(v: &InlineBytes) -> (s: &[u8])
    ensures
        s@ == inline_contents(*v),
{
    v.inner.as_slice()
}

} // verus!
