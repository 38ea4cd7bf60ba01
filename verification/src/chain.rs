//! Adaptor to chain together two readers: one logical stream that yields
//! every byte of the first source, then every byte of the second.
//!
//! The transition from the first source to the second fires exactly once,
//! when the first source gives an unambiguous end-of-stream signal, and it
//! never reverts. While the first source is active the second is never
//! touched; once the flag is set the first is never touched again.

use vstd::prelude::*;

use crate::poll::Poll;
use crate::source::{lemma_total_len_congruent, total_len, BufRead, Read};

verus! {

/// Two exclusively owned sources and the flag that records whether the first
/// has been observed exhausted. The flag is the only state that must survive
/// a suspension: it decides, alone, which source every operation goes to.
#[derive(Debug)]
pub struct Chain<T, U> {
    pub first: T,
    pub second: U,
    pub done_first: bool,
}

impl<T, U> Chain<T, U> {
    /// Combine two sources, consuming both. The first source starts active.
    pub fn new(first: T, second: U) -> (r: Chain<T, U>)
        ensures
            r.first == first,
            r.second == second,
            !r.done_first,
    {
        Chain { first, second, done_first: false }
    }

    /// Consumes the combinator, returning the wrapped readers.
    pub fn into_inner(self) -> (r: (T, U))
        ensures
            r.0 == self.first,
            r.1 == self.second,
    {
        (self.first, self.second)
    }

    /// Gets references to the underlying readers.
    pub fn get_ref(&self) -> (r: (&T, &U))
        ensures
            *r.0 == self.first,
            *r.1 == self.second,
    {
        (&self.first, &self.second)
    }

    /// Gets mutable references to the underlying readers.
    ///
    /// Care should be taken: moving an inner source's read position through
    /// these references, outside the combinator's own calls, can desynchronize
    /// the exhaustion flag from reality.
    pub fn get_mut(&mut self) -> (r: (&mut T, &mut U))
        ensures
            *r.0 == old(self).first,
            *r.1 == old(self).second,
            final(self).first == *final(r.0),
            final(self).second == *final(r.1),
            final(self).done_first == old(self).done_first,
    {
        (&mut self.first, &mut self.second)
    }
}

/// Law: before the transition, the combined stream owes exactly the bytes of
/// the first source followed by the bytes of the second, with total length
/// the sum of the two. Together with `drive::read_to_end`, which appends
/// everything a source owes in order, this pins down what draining a freshly
/// combined pair with a plain-read loop yields.
pub proof fn lemma_chain_owes_concatenation<T: Read, U: Read>(c: Chain<T, U>)
    requires
        !c.done_first,
    ensures
        c.remaining() == c.first.remaining() + c.second.remaining(),
        c.remaining().len() == c.first.remaining().len() + c.second.remaining().len(),
{
}

impl<T: Read, U: Read> Read for Chain<T, U> {
    /// While the first source is active the stream still owes every byte of
    /// both sources; afterwards only what the second has left.
    open spec fn remaining(&self) -> Seq<u8> {
        if self.done_first {
            self.second.remaining()
        } else {
            self.first.remaining() + self.second.remaining()
        }
    }

    fn read(&mut self, buf: &mut Vec<u8>) -> (r: Poll<usize>)
        ensures
            // the transition fires at most once and never reverts
            old(self).done_first ==> final(self).done_first,
            // and only on an end-of-stream signal: a completed read of zero
            // bytes into a non-empty buffer, possible only with nothing left
            !old(self).done_first && final(self).done_first ==> old(buf)@.len() > 0
                && old(self).first.remaining().len() == 0,
            // once the first source is done it is never touched again
            old(self).done_first ==> final(self).first == old(self).first,
            // the second source is never touched before the transition
            !final(self).done_first ==> final(self).second == old(self).second,
            // an empty destination buffer makes the read a clean no-op
            old(buf)@.len() == 0 ==> final(self).done_first == old(self).done_first
                && final(self).remaining() == old(self).remaining(),
    {
        if !self.done_first {
            let r = self.first.read(buf);
            match r {
                Poll::Ready(n) => {
                    if n == 0 && buf.len() > 0 {
                        self.done_first = true;
                        proof {
                            assert(old(self).first.remaining() + old(self).second.remaining()
                                =~= old(self).second.remaining());
                        }
                    } else {
                        proof {
                            assert((old(self).first.remaining()
                                + old(self).second.remaining()).take(n as int)
                                =~= old(self).first.remaining().take(n as int));
                            assert((old(self).first.remaining()
                                + old(self).second.remaining()).skip(n as int)
                                =~= old(self).first.remaining().skip(n as int)
                                + old(self).second.remaining());
                        }
                        return Poll::Ready(n);
                    }
                },
                Poll::Failed(e) => {
                    return Poll::Failed(e);
                },
                Poll::Pending => {
                    return Poll::Pending;
                },
            }
        }
        self.second.read(buf)
    }

    fn read_vectored(&mut self, bufs: &mut Vec<Vec<u8>>) -> (r: Poll<usize>)
        ensures
            old(self).done_first ==> final(self).done_first,
            !old(self).done_first && final(self).done_first ==> total_len(old(bufs)@) > 0
                && old(self).first.remaining().len() == 0,
            old(self).done_first ==> final(self).first == old(self).first,
            !final(self).done_first ==> final(self).second == old(self).second,
            total_len(old(bufs)@) == 0 ==> final(self).done_first == old(self).done_first
                && final(self).remaining() == old(self).remaining(),
    {
        let has_cap = batch_has_capacity(bufs);
        if !self.done_first {
            let r = self.first.read_vectored(bufs);
            match r {
                Poll::Ready(n) => {
                    if n == 0 && has_cap {
                        self.done_first = true;
                        proof {
                            assert(old(self).first.remaining() + old(self).second.remaining()
                                =~= old(self).second.remaining());
                            lemma_total_len_congruent(bufs@, old(bufs)@);
                        }
                    } else {
                        proof {
                            assert((old(self).first.remaining()
                                + old(self).second.remaining()).take(n as int)
                                =~= old(self).first.remaining().take(n as int));
                            assert((old(self).first.remaining()
                                + old(self).second.remaining()).skip(n as int)
                                =~= old(self).first.remaining().skip(n as int)
                                + old(self).second.remaining());
                        }
                        return Poll::Ready(n);
                    }
                },
                Poll::Failed(e) => {
                    return Poll::Failed(e);
                },
                Poll::Pending => {
                    return Poll::Pending;
                },
            }
        }
        self.second.read_vectored(bufs)
    }
}

impl<T: BufRead, U: BufRead> BufRead for Chain<T, U> {
    /// The lookahead buffer of whichever source is currently active.
    open spec fn buffered(&self) -> nat {
        if self.done_first {
            self.second.buffered()
        } else {
            self.first.buffered()
        }
    }

    proof fn lemma_buffered_within_remaining(&self) {
        if self.done_first {
            self.second.lemma_buffered_within_remaining();
        } else {
            self.first.lemma_buffered_within_remaining();
        }
    }

    fn fill_buf(&mut self) -> (r: Poll<Vec<u8>>)
        ensures
            // the transition fires at most once and never reverts
            old(self).done_first ==> final(self).done_first,
            // a peek has no destination buffer, so every zero-length view
            // during the first phase is an unambiguous end-of-stream signal
            !old(self).done_first && final(self).done_first
                ==> old(self).first.remaining().len() == 0,
            // once the first source is done it is never touched again
            old(self).done_first ==> final(self).first == old(self).first,
            // the second source is never touched before the transition
            !final(self).done_first ==> final(self).second == old(self).second,
    {
        if !self.done_first {
            let r = self.first.fill_buf();
            match r {
                Poll::Ready(view) => {
                    if view.len() == 0 {
                        self.done_first = true;
                        proof {
                            assert(old(self).first.remaining() + old(self).second.remaining()
                                =~= old(self).second.remaining());
                        }
                    } else {
                        proof {
                            assert((old(self).first.remaining()
                                + old(self).second.remaining()).take(view@.len() as int)
                                =~= old(self).first.remaining().take(view@.len() as int));
                        }
                        return Poll::Ready(view);
                    }
                },
                Poll::Failed(e) => {
                    return Poll::Failed(e);
                },
                Poll::Pending => {
                    return Poll::Pending;
                },
            }
        }
        self.second.fill_buf()
    }

    fn consume(&mut self, amt: usize)
        ensures
            // consuming never moves the flag and never touches the inactive
            // source; the active source advances by exactly `amt`
            final(self).done_first == old(self).done_first,
            !old(self).done_first ==> final(self).second == old(self).second
                && final(self).first.remaining() == old(self).first.remaining().skip(amt as int),
            old(self).done_first ==> final(self).first == old(self).first
                && final(self).second.remaining() == old(self).second.remaining().skip(amt as int),
    {
        if !self.done_first {
            proof {
                self.first.lemma_buffered_within_remaining();
            }
            let ghost f0 = self.first.remaining();
            let ghost s0 = self.second.remaining();
            self.first.consume(amt);
            proof {
                assert((f0 + s0).skip(amt as int) =~= f0.skip(amt as int) + s0);
            }
        } else {
            self.second.consume(amt);
        }
    }
}

/// True exactly when the batch has any destination capacity at all.
fn batch_has_capacity(bufs: &Vec<Vec<u8>>) -> (b: bool)
    ensures
        b == (total_len(bufs@) > 0),
{
    let mut i: usize = 0;
    while i < bufs.len()
        invariant
            i <= bufs@.len(),
            total_len(bufs@.take(i as int)) == 0,
        decreases bufs@.len() - i,
    {
        proof {
            crate::source::lemma_flat_take_succ(bufs@, i as int);
        }
        if bufs[i].len() > 0 {
            proof {
                lemma_le_total_len(bufs@, i as int + 1, bufs@.len() as int);
                assert(bufs@.take(bufs@.len() as int) =~= bufs@);
            }
            return true;
        }
        i += 1;
    }
    proof {
        assert(bufs@.take(i as int) =~= bufs@);
    }
    false
}

/// Capacity is monotone in the length of the prefix considered.
proof fn lemma_le_total_len(bufs: Seq<Vec<u8>>, i: int, j: int)
    requires
        0 <= i <= j <= bufs.len(),
    ensures
        total_len(bufs.take(i)) <= total_len(bufs.take(j)),
    decreases j - i,
{
    if i < j {
        lemma_le_total_len(bufs, i + 1, j);
        crate::source::lemma_flat_take_succ(bufs, i);
    }
}

} // verus!
