//! Concrete byte sources. `Cursor` yields a vector of bytes from a moving
//! position and completes every operation immediately; `Stutter` and `Flaky`
//! wrap another source to suspend or fail a set number of times first, the
//! way a cooperative source backed by slow or unreliable data would.

use vstd::prelude::*;

use crate::poll::{IoError, Poll};
use crate::source::{flat, lemma_flat_len, lemma_flat_take_succ, BufRead, Read};

verus! {

/// An in-memory byte source: the bytes of `data` from position `pos` on.
#[derive(Debug)]
pub struct Cursor {
    pub data: Vec<u8>,
    pub pos: usize,
}

impl Cursor {
    pub fn new(data: Vec<u8>) -> (r: Cursor)
        ensures
            r.data@ == data@,
            r.pos == 0,
            r.remaining() == data@,
    {
        let r = Cursor { data, pos: 0 };
        proof {
            assert(r.remaining() =~= r.data@);
        }
        r
    }

    /// Copy as many of the remaining bytes as fit into the front of `buf`,
    /// advance past them, and report how many that was: the smaller of the
    /// buffer length and the bytes left.
    fn fill_front(&mut self, buf: &mut Vec<u8>) -> (n: usize)
        ensures
            final(buf)@.len() == old(buf)@.len(),
            n == if old(buf)@.len() <= old(self).remaining().len() {
                old(buf)@.len()
            } else {
                old(self).remaining().len()
            },
            final(buf)@.take(n as int) == old(self).remaining().take(n as int),
            final(self).remaining() == old(self).remaining().skip(n as int),
            final(self).data@ == old(self).data@,
    {
        let avail = if self.pos < self.data.len() {
            self.data.len() - self.pos
        } else {
            0
        };
        proof {
            assert(avail == self.remaining().len());
        }
        let n = if buf.len() <= avail {
            buf.len()
        } else {
            avail
        };
        let dlen = self.data.len();
        let mut j: usize = 0;
        while j < n
            invariant
                j <= n,
                n <= avail,
                avail == old(self).remaining().len(),
                self.pos == old(self).pos,
                self.data@ == old(self).data@,
                self.data@.len() == dlen,
                avail > 0 ==> self.pos + avail == self.data@.len(),
                n <= buf@.len(),
                buf@.len() == old(buf)@.len(),
                forall|k: int| 0 <= k < j ==> buf@[k] == old(self).remaining()[k],
            decreases n - j,
        {
            let b = self.data[self.pos + j];
            buf[j] = b;
            proof {
                assert(self.remaining()[j as int] == self.data@[self.pos + j]);
            }
            j += 1;
        }
        proof {
            assert(buf@.take(n as int) =~= old(self).remaining().take(n as int));
        }
        let ghost pre = self.remaining();
        self.pos = self.pos + n;
        proof {
            assert(self.remaining() =~= pre.skip(n as int));
        }
        n
    }
}

impl Read for Cursor {
    open spec fn remaining(&self) -> Seq<u8> {
        if self.pos <= self.data@.len() {
            self.data@.skip(self.pos as int)
        } else {
            Seq::empty()
        }
    }

    fn read(&mut self, buf: &mut Vec<u8>) -> (r: Poll<usize>) {
        let n = self.fill_front(buf);
        Poll::Ready(n)
    }

    fn read_vectored(&mut self, bufs: &mut Vec<Vec<u8>>) -> (r: Poll<usize>) {
        let ghost rem0 = self.remaining();
        let cap = self.data.len();
        proof {
            assert(rem0.len() <= cap);
        }
        let mut total: usize = 0;
        let mut i: usize = 0;
        while i < bufs.len()
            invariant
                i <= bufs@.len(),
                rem0.len() <= cap,
                bufs@.len() == old(bufs)@.len(),
                forall|k: int|
                    0 <= k < bufs@.len() ==> (#[trigger] bufs@[k])@.len() == old(bufs)@[k]@.len(),
                forall|k: int| i <= k < bufs@.len() ==> bufs@[k] == old(bufs)@[k],
                rem0 == old(self).remaining(),
                total <= rem0.len(),
                self.remaining() == rem0.skip(total as int),
                self.data@ == old(self).data@,
                total <= crate::source::total_len(bufs@.take(i as int)),
                flat(bufs@.take(i as int)).take(total as int) == rem0.take(total as int),
                total == rem0.len() || total == crate::source::total_len(bufs@.take(i as int)),
            decreases bufs@.len() - i,
        {
            let ghost bufs_pre = bufs@;
            let ghost total_pre = total as int;
            let mut b = bufs.remove(i);
            let k = self.fill_front(&mut b);
            proof {
                assert(total_pre + k <= rem0.len());
            }
            bufs.insert(i, b);
            proof {
                assert(bufs@ =~= bufs_pre.update(i as int, b));
                assert(bufs@.take(i as int) =~= bufs_pre.take(i as int));
                lemma_flat_take_succ(bufs@, i as int);
                lemma_flat_len(bufs@.take(i as int));
                let fpre = flat(bufs@.take(i as int));
                let fnow = flat(bufs@.take(i + 1));
                assert(fnow == fpre + b@);
                if total_pre == rem0.len() {
                    // the source was already drained: nothing more was copied
                    assert(k == 0);
                    assert(total_pre <= fpre.len());
                    assert(fnow.take(total_pre) =~= fpre.take(total_pre));
                } else {
                    // every earlier buffer was filled to capacity
                    assert(fpre.len() == total_pre);
                    assert(fpre =~= rem0.take(total_pre));
                    assert(b@.take(k as int) == rem0.skip(total_pre).take(k as int));
                    assert forall|m: int| 0 <= m < total_pre + k implies fnow[m] == rem0[m] by {
                        if m < total_pre {
                            assert(fnow[m] == fpre[m]);
                            assert(fpre[m] == rem0.take(total_pre)[m]);
                        } else {
                            assert(fnow[m] == b@[m - total_pre]);
                            assert(b@.take(k as int)[m - total_pre] == rem0.skip(total_pre).take(
                                k as int,
                            )[m - total_pre]);
                        }
                    }
                    assert(fnow.take(total_pre + k) =~= rem0.take(total_pre + k));
                }
            }
            total = total + k;
            i += 1;
        }
        proof {
            assert(bufs@.take(i as int) =~= bufs@);
            crate::source::lemma_total_len_congruent(bufs@, old(bufs)@);
            if total == 0 && crate::source::total_len(old(bufs)@) > 0 {
                assert(rem0.len() == 0);
            }
        }
        Poll::Ready(total)
    }
}

impl BufRead for Cursor {
    /// Everything still to come already sits in memory, so it is all
    /// buffered.
    open spec fn buffered(&self) -> nat {
        self.remaining().len()
    }

    proof fn lemma_buffered_within_remaining(&self) {
    }

    fn fill_buf(&mut self) -> (r: Poll<Vec<u8>>) {
        let avail = if self.pos < self.data.len() {
            self.data.len() - self.pos
        } else {
            0
        };
        proof {
            assert(avail == self.remaining().len());
        }
        let dlen = self.data.len();
        let mut view: Vec<u8> = Vec::new();
        let mut j: usize = 0;
        while j < avail
            invariant
                j <= avail,
                avail == old(self).remaining().len(),
                self.pos == old(self).pos,
                self.data@ == old(self).data@,
                self.data@.len() == dlen,
                avail > 0 ==> self.pos + avail == self.data@.len(),
                view@.len() == j,
                forall|k: int| 0 <= k < j ==> view@[k] == old(self).remaining()[k],
            decreases avail - j,
        {
            let b = self.data[self.pos + j];
            view.push(b);
            proof {
                assert(self.remaining()[j as int] == self.data@[self.pos + j]);
            }
            j += 1;
        }
        proof {
            assert(view@ =~= self.remaining().take(view@.len() as int));
        }
        Poll::Ready(view)
    }

    fn consume(&mut self, amt: usize) {
        let ghost pre = self.remaining();
        let dlen = self.data.len();
        proof {
            assert(amt <= pre.len());
            assert(pre.len() + self.pos <= dlen || pre.len() == 0);
        }
        self.pos = self.pos + amt;
        proof {
            assert(self.remaining() =~= pre.skip(amt as int));
        }
    }
}

/// A source that reports "not yet ready" a set number of times before
/// letting any operation through to the wrapped source. It models a
/// cooperative source whose data is not immediately available and checks
/// that callers can be re-driven without losing or duplicating progress.
#[derive(Debug)]
pub struct Stutter<R> {
    pub inner: R,
    /// How many more times an operation will suspend before going through.
    pub pauses: usize,
}

impl<R: Read> Read for Stutter<R> {
    open spec fn remaining(&self) -> Seq<u8> {
        self.inner.remaining()
    }

    fn read(&mut self, buf: &mut Vec<u8>) -> (r: Poll<usize>) {
        if self.pauses > 0 {
            self.pauses = self.pauses - 1;
            return Poll::Pending;
        }
        self.inner.read(buf)
    }

    fn read_vectored(&mut self, bufs: &mut Vec<Vec<u8>>) -> (r: Poll<usize>) {
        if self.pauses > 0 {
            self.pauses = self.pauses - 1;
            return Poll::Pending;
        }
        self.inner.read_vectored(bufs)
    }
}

impl<R: BufRead> BufRead for Stutter<R> {
    open spec fn buffered(&self) -> nat {
        self.inner.buffered()
    }

    proof fn lemma_buffered_within_remaining(&self) {
        self.inner.lemma_buffered_within_remaining();
    }

    fn fill_buf(&mut self) -> (r: Poll<Vec<u8>>) {
        if self.pauses > 0 {
            self.pauses = self.pauses - 1;
            return Poll::Pending;
        }
        self.inner.fill_buf()
    }

    fn consume(&mut self, amt: usize) {
        self.inner.consume(amt)
    }
}

/// A source that fails a set number of times before letting any operation
/// through to the wrapped source. A failure leaves the stream position
/// untouched, so the caller may try again.
#[derive(Debug)]
pub struct Flaky<R> {
    pub inner: R,
    /// How many more times an operation will fail before going through.
    pub faults: usize,
    /// The implementation-defined cause carried by each failure.
    pub code: u64,
}

impl<R: Read> Read for Flaky<R> {
    open spec fn remaining(&self) -> Seq<u8> {
        self.inner.remaining()
    }

    fn read(&mut self, buf: &mut Vec<u8>) -> (r: Poll<usize>) {
        if self.faults > 0 {
            self.faults = self.faults - 1;
            return Poll::Failed(IoError { code: self.code });
        }
        self.inner.read(buf)
    }

    fn read_vectored(&mut self, bufs: &mut Vec<Vec<u8>>) -> (r: Poll<usize>) {
        if self.faults > 0 {
            self.faults = self.faults - 1;
            return Poll::Failed(IoError { code: self.code });
        }
        self.inner.read_vectored(bufs)
    }
}

impl<R: BufRead> BufRead for Flaky<R> {
    open spec fn buffered(&self) -> nat {
        self.inner.buffered()
    }

    proof fn lemma_buffered_within_remaining(&self) {
        self.inner.lemma_buffered_within_remaining();
    }

    fn fill_buf(&mut self) -> (r: Poll<Vec<u8>>) {
        if self.faults > 0 {
            self.faults = self.faults - 1;
            return Poll::Failed(IoError { code: self.code });
        }
        self.inner.fill_buf()
    }

    fn consume(&mut self, amt: usize) {
        self.inner.consume(amt)
    }
}

} // verus!
