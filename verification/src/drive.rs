//! Driving a readable stream to completion with a plain-read loop.
//!
//! This is the law of the whole combinator made executable: reading any
//! source to its end appends exactly the bytes it still owed, in order, and
//! nothing else. Applied to a freshly combined pair it yields every byte of
//! the first source followed by every byte of the second.

use vstd::prelude::*;

use crate::poll::Poll;
use crate::source::Read;

verus! {

/// Read `r` to its end, appending everything it yields to `out`.
///
/// On `Ready(n)`, `n` bytes — every byte the source still owed — were
/// appended to `out` in stream order and the source reports a single
/// combined end of stream. A suspension or a failure of the source is
/// surfaced as it is; the bytes read so far stay in `out` and the source
/// keeps its position, so the loop can be re-driven.
pub fn read_to_end<R: Read>(r: &mut R, out: &mut Vec<u8>) -> (res: Poll<usize>)
    ensures
        final(out)@.len() >= old(out)@.len(),
        final(out)@.take(old(out)@.len() as int) == old(out)@,
        old(r).remaining() == final(out)@.skip(old(out)@.len() as int) + final(r).remaining(),
        match res {
            Poll::Ready(n) => {
                &&& n == old(r).remaining().len()
                &&& final(r).remaining().len() == 0
                &&& final(out)@ == old(out)@ + old(r).remaining()
            },
            Poll::Failed(_) => true,
            Poll::Pending => true,
        },
{
    let start = out.len();
    let ghost rem0 = r.remaining();
    let mut buf: Vec<u8> = Vec::new();
    let mut k: usize = 0;
    while k < 64
        invariant
            buf@.len() == k,
            k <= 64,
        decreases 64 - k,
    {
        buf.push(0u8);
        k += 1;
    }
    proof {
        assert(out@ =~= old(out)@ + rem0.take(0));
        assert(r.remaining() =~= rem0.skip(0));
    }
    loop
        invariant
            buf@.len() == 64,
            start == old(out)@.len(),
            start <= out@.len(),
            rem0 == old(r).remaining(),
            out@.len() - start <= rem0.len(),
            out@ == old(out)@ + rem0.take(out@.len() - start),
            r.remaining() == rem0.skip(out@.len() - start),
        decreases r.remaining().len(),
    {
        let ghost rem_pre = r.remaining();
        let ghost out_pre = out@;
        let ghost done = out_pre.len() - start;
        let res = r.read(&mut buf);
        match res {
            Poll::Ready(n) => {
                if n == 0 {
                    // the buffer is non-empty, so this is end of stream
                    proof {
                        assert(rem_pre.len() == 0);
                        assert(done == rem0.len());
                        assert(out@ =~= old(out)@ + rem0);
                        assert(out@.take(start as int) =~= old(out)@);
                        assert(out@.skip(start as int) =~= rem0);
                        assert(rem0 =~= out@.skip(start as int) + r.remaining());
                    }
                    return Poll::Ready(out.len() - start);
                }
                proof {
                    assert(out@ =~= out_pre + buf@.take(0));
                }
                let mut j: usize = 0;
                while j < n
                    invariant
                        j <= n,
                        n <= buf@.len(),
                        buf@.len() == 64,
                        buf@.take(n as int) == rem_pre.take(n as int),
                        out@ == out_pre + buf@.take(j as int),
                    decreases n - j,
                {
                    let b = buf[j];
                    out.push(b);
                    proof {
                        assert(out@ =~= out_pre + buf@.take(j + 1));
                    }
                    j += 1;
                }
                proof {
                    assert(n <= rem_pre.len());
                    assert(done + n <= rem0.len());
                    assert(buf@.take(n as int) == rem0.skip(done).take(n as int));
                    assert(out@ =~= old(out)@ + rem0.take(done + n)) by {
                        assert(out@ =~= (old(out)@ + rem0.take(done)) + rem0.skip(done).take(
                            n as int,
                        ));
                        assert(rem0.take(done + n) =~= rem0.take(done) + rem0.skip(done).take(
                            n as int,
                        ));
                    }
                    assert(r.remaining() =~= rem0.skip(done + n));
                }
            },
            Poll::Failed(e) => {
                proof {
                    lemma_partial_progress(rem0, old(out)@, out@, start as int);
                }
                return Poll::Failed(e);
            },
            Poll::Pending => {
                proof {
                    lemma_partial_progress(rem0, old(out)@, out@, start as int);
                }
                return Poll::Pending;
            },
        }
    }
}

/// What the loop invariant gives at any early exit: the bytes appended so
/// far are exactly the prefix of the stream already consumed.
proof fn lemma_partial_progress(rem0: Seq<u8>, out0: Seq<u8>, out: Seq<u8>, start: int)
    requires
        start == out0.len(),
        start <= out.len(),
        out.len() - start <= rem0.len(),
        out == out0 + rem0.take(out.len() - start),
    ensures
        out.take(start) == out0,
        out.len() >= out0.len(),
        rem0 == out.skip(start) + rem0.skip(out.len() - start),
{
    assert(out.take(start) =~= out0);
    assert(out.skip(start) =~= rem0.take(out.len() - start));
    assert(rem0 =~= rem0.take(out.len() - start) + rem0.skip(out.len() - start));
}

} // verus!
