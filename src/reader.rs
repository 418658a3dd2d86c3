//! Assembling frames from the chunks that reads of a byte stream return.
//!
//! Bytes accumulate in a buffer that persists between frames: whatever
//! follows a complete frame is kept for the next one, so frames that arrive
//! together in one read are all delivered, in order.
use vstd::prelude::*;
use crate::error::{read_disconnect, read_failure, surfaces_as, IoFailure, NreplError};
use crate::framing::{frame_scan, lemma_complete_frame_is_stable, scan_frame, FrameScan, ScanOutcome};

verus! {

/// The most bytes buffered without a complete frame before reading gives up.
pub const MAX_FRAME_BYTES: usize = 1048576;

/// What happened on the transport while waiting for a frame.
#[derive(Clone, Debug, PartialEq, Eq)]
pub enum ReadEvent {
    /// A read returned these bytes; none at all means the peer closed.
    Data(Vec<u8>),
    /// A read failed.
    Failed(IoFailure),
    /// The deadline for this frame passed.
    DeadlinePassed,
}

/// What the caller does next.
#[derive(Clone, Debug, PartialEq, Eq)]
pub enum ReadStep {
    /// A complete frame, ready to decode.
    Frame(Vec<u8>),
    /// Read more bytes and report what happened.
    ReadMore,
    /// Give up with this error.
    Fail(NreplError),
}

/// `r` is the step taken on a buffer holding `b`, and `after` the bytes it
/// keeps, once no more bytes are to come for now. A complete frame at the
/// front is handed out and only what follows it is kept; a malformed front,
/// or more than `MAX_FRAME_BYTES` without a complete frame, fails with a parse
/// error ("malformed frame" or "message too large"); otherwise the caller reads more, or, once the deadline has passed,
/// fails with `Timeout`.
pub open spec fn settles(b: Seq<u8>, deadline_passed: bool, r: ReadStep, after: Seq<u8>) -> bool {
    match frame_scan(b) {
        ScanOutcome::Complete(n) => r is Frame && r->Frame_0@ == b.subrange(0, n) && after == b.subrange(
            n,
            b.len() as int,
        ),
        ScanOutcome::Malformed => r is Fail && r->Fail_0 is ParseError && r->Fail_0->ParseError_0@
            == "malformed frame"@ && after == b,
        ScanOutcome::Incomplete => after == b && if b.len() > MAX_FRAME_BYTES {
            r is Fail && r->Fail_0 is ParseError && r->Fail_0->ParseError_0@
                == "message too large"@
        } else if deadline_passed {
            r == ReadStep::Fail(NreplError::Timeout)
        } else {
            r is ReadMore
        },
    }
}

/// Two complete frames that arrive together are both delivered, in order
/// and intact: the first step hands out the first and keeps exactly the
/// second, which the next step hands out, leaving nothing behind.
pub proof fn lemma_pipelined_frames(
    a: Seq<u8>,
    b: Seq<u8>,
    first: ReadStep,
    kept: Seq<u8>,
    second: ReadStep,
    left: Seq<u8>,
)
    requires
        frame_scan(a) == ScanOutcome::Complete(a.len() as int),
        frame_scan(b) == ScanOutcome::Complete(b.len() as int),
        settles(a + b, false, first, kept),
        settles(kept, false, second, left),
    ensures
        first is Frame && first->Frame_0@ == a,
        kept == b,
        second is Frame && second->Frame_0@ == b,
        left.len() == 0,
{
    lemma_complete_frame_is_stable(a, b);
    assert((a + b).subrange(0, a.len() as int) =~= a);
    assert((a + b).subrange(a.len() as int, (a + b).len() as int) =~= b);
    assert(b.subrange(0, b.len() as int) =~= b);
}

/// Buffered bytes of a stream, not yet handed out as frames.
pub struct FrameReader {
    buf: Vec<u8>,
}

impl View for FrameReader {
    type V = Seq<u8>;

    closed spec fn view(&self) -> Seq<u8> {
        self.buf@
    }
}

impl FrameReader {
    /// A reader with nothing buffered.
    pub fn new() -> (r: FrameReader)
        ensures
            r@ == Seq::<u8>::empty(),
    {
        FrameReader { buf: Vec::new() }
    }

    /// How many bytes are buffered.
    pub fn buffered_len(&self) -> (r: usize)
        ensures
            r == self@.len(),
    {
        self.buf.len()
    }

    fn settle(&mut self, deadline_passed: bool) -> (r: ReadStep)
        ensures
            settles(old(self)@, deadline_passed, r, final(self)@),
    {
        match scan_frame(self.buf.as_slice()) {
            FrameScan::Complete(n) => {
                let mut frame = self.buf.split_off(n);
                std::mem::swap(&mut self.buf, &mut frame);
                ReadStep::Frame(frame)
            },
            FrameScan::Malformed => ReadStep::Fail(
                NreplError::ParseError(String::from_str("malformed frame")),
            ),
            FrameScan::Incomplete => {
                if self.buf.len() > MAX_FRAME_BYTES {
                    ReadStep::Fail(NreplError::ParseError(String::from_str("message too large")))
                } else if deadline_passed {
                    ReadStep::Fail(NreplError::Timeout)
                } else {
                    ReadStep::ReadMore
                }
            },
        }
    }

    /// The first step of waiting for a frame: a complete frame left over
    /// from earlier reads is handed out at once.
    pub fn poll(&mut self) -> (r: ReadStep)
        ensures
            settles(old(self)@, false, r, final(self)@),
    {
        self.settle(false)
    }

    /// Takes in what happened on the transport and decides the next step.
    /// A read of no bytes always fails with `ConnectionClosed`.
    pub fn step(&mut self, event: ReadEvent) -> (r: ReadStep)
        ensures
            match event {
                ReadEvent::Data(d) => if d@.len() == 0 {
                    r == ReadStep::Fail(NreplError::ConnectionClosed) && final(self)@ == old(self)@
                } else {
                    settles(old(self)@ + d@, false, r, final(self)@)
                },
                ReadEvent::Failed(f) => final(self)@ == old(self)@ && if f is WouldBlock
                    || f is TimedOut {
                    r is ReadMore
                } else {
                    r is Fail && surfaces_as(r->Fail_0, f, read_disconnect(f))
                },
                ReadEvent::DeadlinePassed => settles(old(self)@, true, r, final(self)@),
            },
    {
        match event {
            ReadEvent::Data(d) => {
                if d.len() == 0 {
                    ReadStep::Fail(NreplError::ConnectionClosed)
                } else {
                    self.buf.extend_from_slice(d.as_slice());
                    proof {
                        assert(self.buf@ =~= old(self)@ + d@);
                    }
                    self.settle(false)
                }
            },
            ReadEvent::Failed(f) => {
                match f {
                    IoFailure::WouldBlock | IoFailure::TimedOut => ReadStep::ReadMore,
                    _ => ReadStep::Fail(read_failure(f)),
                }
            },
            ReadEvent::DeadlinePassed => self.settle(true),
        }
    }
}

} // verus!
