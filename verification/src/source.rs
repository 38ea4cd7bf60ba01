//! The readable-stream and bufferable-stream capabilities that the combinator
//! both requires from its inner sources and offers to its own callers.
//!
//! Every operation takes one cooperative step: it may finish with a value,
//! finish with a failure, or report that it is not yet ready. A source that
//! reports "not yet ready" must leave its stream position untouched, so the
//! same call can be issued again later without losing or duplicating bytes.

use vstd::prelude::*;

use crate::poll::Poll;

verus! {

/// All bytes of `bufs`, laid end to end in order.
pub open spec fn flat(bufs: Seq<Vec<u8>>) -> Seq<u8>
    decreases bufs.len(),
{
    if bufs.len() == 0 {
        Seq::empty()
    } else {
        flat(bufs.drop_last()) + bufs.last()@
    }
}

/// Total capacity of `bufs`: the sum of the buffer lengths.
pub open spec fn total_len(bufs: Seq<Vec<u8>>) -> nat
    decreases bufs.len(),
{
    if bufs.len() == 0 {
        0
    } else {
        total_len(bufs.drop_last()) + bufs.last()@.len()
    }
}

pub proof fn lemma_flat_len(bufs: Seq<Vec<u8>>)
    ensures
        flat(bufs).len() == total_len(bufs),
    decreases bufs.len(),
{
    if bufs.len() > 0 {
        lemma_flat_len(bufs.drop_last());
    }
}

/// Extending a prefix of `bufs` by one buffer appends that buffer's bytes.
pub proof fn lemma_flat_take_succ(bufs: Seq<Vec<u8>>, i: int)
    requires
        0 <= i < bufs.len(),
    ensures
        flat(bufs.take(i + 1)) == flat(bufs.take(i)) + bufs[i]@,
        total_len(bufs.take(i + 1)) == total_len(bufs.take(i)) + bufs[i]@.len(),
{
    let t = bufs.take(i + 1);
    assert(t.drop_last() =~= bufs.take(i));
    assert(t.last() == bufs[i]);
}

/// Two buffer sequences of pointwise equal lengths have equal capacity.
pub proof fn lemma_total_len_congruent(a: Seq<Vec<u8>>, b: Seq<Vec<u8>>)
    requires
        a.len() == b.len(),
        forall|i: int| 0 <= i < a.len() ==> (#[trigger] a[i])@.len() == b[i]@.len(),
    ensures
        total_len(a) == total_len(b),
    decreases a.len(),
{
    if a.len() > 0 {
        lemma_total_len_congruent(a.drop_last(), b.drop_last());
    }
}

/// The readable-stream capability: a source that yields a definite sequence
/// of bytes, one cooperative step at a time.
pub trait Read {
    /// The bytes this source has yet to yield, in order.
    spec fn remaining(&self) -> Seq<u8>;

    /// Read into `buf`, one cooperative step.
    ///
    /// On `Ready(n)` the first `n` bytes of `buf` hold the next `n` bytes of
    /// the stream and the stream advances past them; a result of zero for a
    /// non-empty `buf` is the end-of-stream signal and may only be given once
    /// nothing remains. On `Pending` or `Failed` the stream position is
    /// untouched, so the call can be re-issued. The buffer never changes
    /// length.
    fn read(&mut self, buf: &mut Vec<u8>) -> (r: Poll<usize>)
        ensures
            final(buf)@.len() == old(buf)@.len(),
            match r {
                Poll::Ready(n) => {
                    &&& n <= old(buf)@.len()
                    &&& n <= old(self).remaining().len()
                    &&& final(buf)@.take(n as int) == old(self).remaining().take(n as int)
                    &&& final(self).remaining() == old(self).remaining().skip(n as int)
                    &&& (n == 0 && old(buf)@.len() > 0 ==> old(self).remaining().len() == 0)
                },
                Poll::Failed(_) => final(self).remaining() == old(self).remaining(),
                Poll::Pending => final(self).remaining() == old(self).remaining(),
            },
    ;

    /// Read into an ordered batch of destination buffers, one cooperative
    /// step.
    ///
    /// Behaves as `read` does, with the reported length aggregated across the
    /// batch: on `Ready(n)` the first `n` bytes of the flattened batch hold
    /// the next `n` bytes of the stream, and a zero aggregate for a batch
    /// with any capacity at all signals end of stream. Buffer count and
    /// buffer lengths never change.
    fn read_vectored(&mut self, bufs: &mut Vec<Vec<u8>>) -> (r: Poll<usize>)
        ensures
            final(bufs)@.len() == old(bufs)@.len(),
            forall|i: int|
                0 <= i < old(bufs)@.len() ==> (#[trigger] final(bufs)@[i])@.len()
                    == old(bufs)@[i]@.len(),
            match r {
                Poll::Ready(n) => {
                    &&& n <= total_len(old(bufs)@)
                    &&& n <= old(self).remaining().len()
                    &&& flat(final(bufs)@).take(n as int) == old(self).remaining().take(n as int)
                    &&& final(self).remaining() == old(self).remaining().skip(n as int)
                    &&& (n == 0 && total_len(old(bufs)@) > 0 ==> old(self).remaining().len() == 0)
                },
                Poll::Failed(_) => final(self).remaining() == old(self).remaining(),
                Poll::Pending => final(self).remaining() == old(self).remaining(),
            },
    ;
}

/// The bufferable-stream capability: a readable source with an internal
/// lookahead buffer whose contents can be examined without being consumed.
pub trait BufRead: Read {
    /// How many of the remaining bytes sit ready in the lookahead buffer.
    spec fn buffered(&self) -> nat;

    /// The lookahead buffer never holds more than the source has left.
    proof fn lemma_buffered_within_remaining(&self)
        ensures
            self.buffered() <= self.remaining().len(),
    ;

    /// Fill the lookahead buffer and return a view of it, one cooperative
    /// step.
    ///
    /// On `Ready` the view is a prefix of the remaining bytes, nothing is
    /// consumed, and an empty view is returned exactly when nothing remains.
    /// On `Pending` or `Failed` the stream position is untouched.
    fn fill_buf(&mut self) -> (r: Poll<Vec<u8>>)
        ensures
            match r {
                Poll::Ready(view) => {
                    &&& final(self).remaining() == old(self).remaining()
                    &&& view@.len() <= old(self).remaining().len()
                    &&& view@.len() <= final(self).buffered()
                    &&& view@ == old(self).remaining().take(view@.len() as int)
                    &&& (view@.len() == 0 <==> old(self).remaining().len() == 0)
                },
                Poll::Failed(_) => final(self).remaining() == old(self).remaining(),
                Poll::Pending => final(self).remaining() == old(self).remaining(),
            },
    ;

    /// Advance past `amt` bytes previously returned by `fill_buf`, without
    /// copying. Never suspends and never fails.
    fn consume(&mut self, amt: usize)
        requires
            amt <= old(self).buffered(),
        ensures
            final(self).remaining() == old(self).remaining().skip(amt as int),
            final(self).buffered() == old(self).buffered() - amt,
    ;
}

} // verus!
