use chain_reader::chain::Chain;
use chain_reader::drive::read_to_end;
use chain_reader::poll::{IoError, Poll};
use chain_reader::source::{BufRead, Read};
use chain_reader::sources::{Cursor, Flaky, Stutter};

#[test]
fn test_chain_basics() {
    let source1: Cursor = Cursor::new(vec![0, 1, 2]);
    let source2: Cursor = Cursor::new(vec![3, 4, 5]);

    let mut buffer: Vec<u8> = Vec::new();

    let mut source = Chain::new(source1, source2);

    let res = read_to_end(&mut source, &mut buffer);
    assert!(matches!(res, Poll::Ready(6)));
    assert_eq!(buffer, vec![0, 1, 2, 3, 4, 5]);
}

#[test]
fn empty_first_source_transitions_in_one_call() {
    // The very first plain read must reach the second source within the same
    // logical call: no spurious empty result is surfaced in between.
    let mut c = Chain::new(Cursor::new(vec![]), Cursor::new(vec![7, 8]));
    let mut buf = vec![0u8; 4];
    let res = c.read(&mut buf);
    assert!(matches!(res, Poll::Ready(2)));
    assert_eq!(&buf[..2], &[7, 8]);
    assert!(c.done_first);

    // the same holds for a requested length of one
    let mut c = Chain::new(Cursor::new(vec![]), Cursor::new(vec![7, 8]));
    let mut one = vec![0u8; 1];
    let res = c.read(&mut one);
    assert!(matches!(res, Poll::Ready(1)));
    assert_eq!(one, vec![7]);
    assert!(c.done_first);
}

#[test]
fn zero_length_read_is_a_clean_noop() {
    let mut c = Chain::new(Cursor::new(vec![1, 2]), Cursor::new(vec![3]));
    let mut empty: Vec<u8> = Vec::new();
    let res = c.read(&mut empty);
    assert!(matches!(res, Poll::Ready(0)));
    assert!(!c.done_first);

    // a subsequent read with a non-empty buffer still reads from the first
    let mut buf = vec![0u8; 2];
    let res = c.read(&mut buf);
    assert!(matches!(res, Poll::Ready(2)));
    assert_eq!(buf, vec![1, 2]);
    assert!(!c.done_first);
}

#[test]
fn transition_fires_once_and_only_after_empty_signal() {
    let mut c = Chain::new(Cursor::new(vec![9]), Cursor::new(vec![5, 6]));
    let mut buf = vec![0u8; 4];

    // a read that still yields bytes from the first source does not flip the
    // flag, even though the first source is now at its end
    let res = c.read(&mut buf);
    assert!(matches!(res, Poll::Ready(1)));
    assert_eq!(buf[0], 9);
    assert!(!c.done_first);

    // the next read observes the empty signal and falls through to the
    // second source within the same call
    let res = c.read(&mut buf);
    assert!(matches!(res, Poll::Ready(2)));
    assert_eq!(&buf[..2], &[5, 6]);
    assert!(c.done_first);

    // the flag never reverts
    let res = c.read(&mut buf);
    assert!(matches!(res, Poll::Ready(0)));
    assert!(c.done_first);
}

#[test]
fn first_source_never_touched_after_transition() {
    let mut c = Chain::new(Cursor::new(vec![9]), Cursor::new(vec![5, 6]));
    let mut buf = vec![0u8; 4];
    assert!(matches!(c.read(&mut buf), Poll::Ready(1)));
    assert!(matches!(c.read(&mut buf), Poll::Ready(2)));
    assert!(c.done_first);

    // rewind the first source from outside, through the accessor
    let (f, _s) = c.get_mut();
    f.pos = 0;

    // further reads still ignore the first source entirely
    let res = c.read(&mut buf);
    assert!(matches!(res, Poll::Ready(0)));
    assert_eq!(c.first.pos, 0);
    assert!(c.done_first);
}

#[test]
fn vectored_read_fills_buffers_in_order() {
    let mut c = Chain::new(Cursor::new(vec![1, 2, 3]), Cursor::new(vec![4, 5]));
    let mut bufs = vec![vec![0u8; 2], vec![0u8; 2]];
    let res = c.read_vectored(&mut bufs);
    assert!(matches!(res, Poll::Ready(3)));
    assert_eq!(bufs[0], vec![1, 2]);
    assert_eq!(bufs[1][0], 3);
    assert!(!c.done_first);

    // a zero aggregate over a batch with capacity triggers the transition
    let res = c.read_vectored(&mut bufs);
    assert!(matches!(res, Poll::Ready(2)));
    assert_eq!(&bufs[0][..2], &[4, 5]);
    assert!(c.done_first);
}

#[test]
fn vectored_read_without_capacity_is_a_noop() {
    let mut c = Chain::new(Cursor::new(vec![1]), Cursor::new(vec![2]));

    // an empty batch has no capacity: no transition, a plain zero result
    let mut none: Vec<Vec<u8>> = Vec::new();
    let res = c.read_vectored(&mut none);
    assert!(matches!(res, Poll::Ready(0)));
    assert!(!c.done_first);

    // a batch of empty buffers has no capacity either
    let mut empties: Vec<Vec<u8>> = vec![Vec::new(), Vec::new()];
    let res = c.read_vectored(&mut empties);
    assert!(matches!(res, Poll::Ready(0)));
    assert!(!c.done_first);
}

#[test]
fn peek_and_consume_advance_active_source_only() {
    let mut c = Chain::new(Cursor::new(vec![1, 2, 3]), Cursor::new(vec![4]));

    match c.fill_buf() {
        Poll::Ready(view) => assert_eq!(view, vec![1, 2, 3]),
        _ => panic!("expected a ready view"),
    }
    c.consume(2);
    assert_eq!(c.first.pos, 2);
    assert_eq!(c.second.pos, 0);

    match c.fill_buf() {
        Poll::Ready(view) => assert_eq!(view, vec![3]),
        _ => panic!("expected a ready view"),
    }
    c.consume(1);
    assert_eq!(c.second.pos, 0);
}

#[test]
fn peek_transitions_within_one_call() {
    let mut c = Chain::new(Cursor::new(vec![]), Cursor::new(vec![4, 5]));

    // peek has no caller-supplied length, so the very first empty view moves
    // straight on to the second source inside the same call
    match c.fill_buf() {
        Poll::Ready(view) => assert_eq!(view, vec![4, 5]),
        _ => panic!("expected a ready view"),
    }
    assert!(c.done_first);
    assert_eq!(c.second.pos, 0);

    c.consume(2);
    assert_eq!(c.second.pos, 2);
    assert_eq!(c.first.pos, 0);

    match c.fill_buf() {
        Poll::Ready(view) => assert!(view.is_empty()),
        _ => panic!("expected a ready view"),
    }
}

#[test]
fn failure_is_propagated_and_does_not_transition() {
    let first = Flaky { inner: Cursor::new(vec![1]), faults: 1, code: 42 };
    let mut c = Chain::new(first, Cursor::new(vec![2]));
    let mut buf = vec![0u8; 2];

    // the failure surfaces verbatim and the flag is untouched
    match c.read(&mut buf) {
        Poll::Failed(e) => assert_eq!(e, IoError { code: 42 }),
        _ => panic!("expected a failure"),
    }
    assert!(!c.done_first);

    // the first source may be tried again and still yields its byte
    let res = c.read(&mut buf);
    assert!(matches!(res, Poll::Ready(1)));
    assert_eq!(buf[0], 1);
    assert!(!c.done_first);
}

#[test]
fn suspension_is_propagated_without_losing_progress() {
    let first = Stutter { inner: Cursor::new(vec![1, 2]), pauses: 2 };
    let mut c = Chain::new(first, Cursor::new(vec![3]));
    let mut buf = vec![0u8; 2];

    assert!(matches!(c.read(&mut buf), Poll::Pending));
    assert!(matches!(c.read(&mut buf), Poll::Pending));
    assert!(!c.done_first);

    let res = c.read(&mut buf);
    assert!(matches!(res, Poll::Ready(2)));
    assert_eq!(buf, vec![1, 2]);
}

#[test]
fn suspension_during_transition_does_not_reenter_first() {
    let second = Stutter { inner: Cursor::new(vec![7, 8]), pauses: 1 };
    let mut c = Chain::new(Cursor::new(vec![]), second);
    let mut buf = vec![0u8; 2];

    // the first source reports empty, the flag flips, and the second
    // source's suspension is surfaced; the flag survives the suspension
    assert!(matches!(c.read(&mut buf), Poll::Pending));
    assert!(c.done_first);

    // resuming goes straight to the second source
    let res = c.read(&mut buf);
    assert!(matches!(res, Poll::Ready(2)));
    assert_eq!(buf, vec![7, 8]);
}

#[test]
fn read_to_end_resumes_after_suspension() {
    let first = Stutter { inner: Cursor::new(vec![0, 1, 2]), pauses: 1 };
    let second = Stutter { inner: Cursor::new(vec![3, 4, 5]), pauses: 1 };
    let mut c = Chain::new(first, second);
    let mut buffer: Vec<u8> = Vec::new();

    // each suspension is surfaced; re-driving the same loop picks up where
    // it left off, and every byte is delivered exactly once
    let mut ready: Option<usize> = None;
    let mut steps: usize = 0;
    while ready.is_none() {
        match read_to_end(&mut c, &mut buffer) {
            Poll::Ready(n) => ready = Some(n),
            Poll::Pending => steps += 1,
            Poll::Failed(_) => panic!("unexpected failure"),
        }
        assert!(steps < 10);
    }
    assert_eq!(buffer, vec![0, 1, 2, 3, 4, 5]);
    assert_eq!(buffer.len(), 6);
}

#[test]
fn both_sources_empty_report_single_eos() {
    let mut c = Chain::new(Cursor::new(vec![]), Cursor::new(vec![]));
    let mut buf = vec![0u8; 3];
    let res = c.read(&mut buf);
    assert!(matches!(res, Poll::Ready(0)));
    assert!(c.done_first);
}

#[test]
fn accessors_expose_both_sources() {
    let mut c = Chain::new(Cursor::new(vec![1, 2]), Cursor::new(vec![3]));
    let mut buf = vec![0u8; 1];
    assert!(matches!(c.read(&mut buf), Poll::Ready(1)));

    let (f, s) = c.get_ref();
    assert_eq!(f.pos, 1);
    assert_eq!(s.pos, 0);

    let (f, _s) = c.get_mut();
    assert_eq!(f.data, vec![1, 2]);

    let (f, s) = c.into_inner();
    assert_eq!(f.pos, 1);
    assert_eq!(f.data, vec![1, 2]);
    assert_eq!(s.pos, 0);
    assert_eq!(s.data, vec![3]);
}

#[test]
fn vectored_transition_needs_one_nonempty_buffer() {
    // an empty buffer at the front of the batch does not hide the capacity
    // of the one behind it
    let mut c = Chain::new(Cursor::new(vec![]), Cursor::new(vec![9]));
    let mut bufs = vec![Vec::new(), vec![0u8; 2]];
    let res = c.read_vectored(&mut bufs);
    assert!(matches!(res, Poll::Ready(1)));
    assert!(c.done_first);
    assert_eq!(bufs[1][0], 9);
}

#[test]
fn peek_failure_is_propagated_and_does_not_transition() {
    let first = Flaky { inner: Cursor::new(vec![1]), faults: 1, code: 7 };
    let mut c = Chain::new(first, Cursor::new(vec![2]));

    match c.fill_buf() {
        Poll::Failed(e) => assert_eq!(e, IoError { code: 7 }),
        _ => panic!("expected a failure"),
    }
    assert!(!c.done_first);

    match c.fill_buf() {
        Poll::Ready(view) => assert_eq!(view, vec![1]),
        _ => panic!("expected a ready view"),
    }
    assert!(!c.done_first);
}

#[test]
fn peek_suspension_is_propagated() {
    let first = Stutter { inner: Cursor::new(vec![1, 2]), pauses: 1 };
    let mut c = Chain::new(first, Cursor::new(vec![3]));

    assert!(matches!(c.fill_buf(), Poll::Pending));
    assert!(!c.done_first);

    match c.fill_buf() {
        Poll::Ready(view) => assert_eq!(view, vec![1, 2]),
        _ => panic!("expected a ready view"),
    }
}

#[test]
fn chain_composes_as_a_source_itself() {
    // the combinator offers the same capability it consumes, so it nests
    let inner = Chain::new(Cursor::new(vec![1]), Cursor::new(vec![2]));
    let mut outer = Chain::new(inner, Cursor::new(vec![3]));
    let mut buffer: Vec<u8> = Vec::new();
    let res = read_to_end(&mut outer, &mut buffer);
    assert!(matches!(res, Poll::Ready(3)));
    assert_eq!(buffer, vec![1, 2, 3]);
}
