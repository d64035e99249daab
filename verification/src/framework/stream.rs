//! Incremental frame reader preserving assembly across polls.

use vstd::prelude::*;

use crate::error::{ErrorView, Result};
use crate::framework::protocol;
use crate::framework::protocol::{FrameAssembler, FramePoll, PollView, ReadEvent};

verus! {

/// Incremental frame reader preserving assembly across polls.
///
/// Keeps the assembler alive across slices: a frame trickling across many
/// poll slices still resolves, and slow peers never corrupt correlation. A
/// started-but-stalled frame cannot pend forever: once any byte arrives,
/// completion is due by the frame timeout.
#[derive(Debug)]
pub struct StreamReader {
    assembler: FrameAssembler,
    max_frame: usize,
    frame_timeout: u64,
    first_progress: Option<u64>,
}

/// State of a stream reader.
pub struct ReaderView {
    pub seen: Seq<u8>,
    pub max_frame: nat,
    pub frame_timeout: nat,
    pub first_progress: Option<u64>,
}

impl View for StreamReader {
    type V = ReaderView;

    closed spec fn view(&self) -> ReaderView {
        ReaderView {
            seen: self.assembler@,
            max_frame: self.max_frame as nat,
            frame_timeout: self.frame_timeout as nat,
            first_progress: self.first_progress,
        }
    }
}

/// Start of the frame in progress, when a slice starts at `now`.
pub open spec fn progress_at(v: ReaderView, now: u64) -> Option<u64> {
    if v.seen.len() == 0 {
        v.first_progress
    } else {
        match v.first_progress {
            Some(t) => Some(t),
            None => Some(now),
        }
    }
}

/// Whether a frame in progress is overdue when a slice starts at `now`.
pub open spec fn stalled(v: ReaderView, now: u64) -> bool {
    v.seen.len() > 0 && match progress_at(v, now) {
        Some(t) => now - t >= v.frame_timeout,
        None => false,
    }
}

/// What one read within a slice yields: the frame, the end of the slice, or
/// another read.
#[derive(Debug)]
pub enum SliceStep {
    /// A complete frame.
    Frame(Vec<u8>),
    /// The slice is over (call again with assembly intact).
    Over,
    /// Read again.
    More,
}

/// Whether a slice step is the one a poll stands for.
pub open spec fn slice_agrees(
    r: Result<SliceStep>,
    polled: std::result::Result<PollView, ErrorView>,
) -> bool {
    match (r, polled) {
        (Err(a), Err(b)) => a@ == b,
        (Ok(SliceStep::Frame(a)), Ok(PollView::Complete(b))) => a@ == b,
        (Ok(SliceStep::Over), Ok(PollView::Idle)) => true,
        (Ok(SliceStep::Over), Ok(PollView::Partial)) => true,
        (Ok(SliceStep::More), Ok(PollView::More)) => true,
        _ => false,
    }
}

impl StreamReader {
    /// Empty reader for the frame ceiling and completion budget
    /// (milliseconds).
    #[must_use]
    pub fn new(max_frame: usize, frame_timeout: u64) -> (s: Self)
        ensures
            s@ == (ReaderView {
                seen: Seq::empty(),
                max_frame: max_frame as nat,
                frame_timeout: frame_timeout as nat,
                first_progress: None,
            }),
    {
        StreamReader {
            assembler: FrameAssembler::new(),
            max_frame,
            frame_timeout,
            first_progress: None,
        }
    }

    /// Starts a poll slice at the instant `now` (milliseconds): a frame that
    /// stalled past its completion budget fails typed instead of pending
    /// forever across slices.
    pub fn start_slice(&mut self, now: u64) -> (r: Result<()>)
        ensures
            final(self)@ == (ReaderView {
                first_progress: progress_at(old(self)@, now),
                ..old(self)@
            }),
            if stalled(old(self)@, now) {
                r matches Err(e) && e@ == ErrorView::Protocol("frame stalled after first byte"@)
            } else {
                r is Ok
            },
    {
        if !self.assembler.is_fresh() {
            if self.first_progress.is_none() {
                self.first_progress = Some(now);
            }
            match self.first_progress {
                Some(started) => {
                    if now >= started && now - started >= self.frame_timeout {
                        return Err(
                            protocol::protocol_error("frame stalled after first byte"),
                        );
                    }
                },
                None => {},
            }
        }
        Ok(())
    }

    /// How many bytes the next read may take.
    pub fn want(&self) -> (n: usize)
        ensures
            n == protocol::wanted(self@.seen),
    {
        self.assembler.want()
    }

    /// Takes one read within the slice: completion, an idle or mid-frame end
    /// of the slice, or a failure (oversize, truncation, read failure).
    pub fn poll_frame(&mut self, event: ReadEvent) -> (r: Result<SliceStep>)
        ensures
            slice_agrees(
                r,
                protocol::polled(old(self)@.seen, event@, old(self)@.max_frame).0,
            ),
            final(self)@ == (ReaderView {
                seen: protocol::polled(old(self)@.seen, event@, old(self)@.max_frame).1,
                first_progress: if r matches Ok(SliceStep::Frame(_)) {
                    None
                } else {
                    old(self)@.first_progress
                },
                ..old(self)@
            }),
    {
        match self.assembler.poll_once(event, self.max_frame) {
            Err(e) => Err(e),
            Ok(FramePoll::Complete(body)) => {
                self.first_progress = None;
                Ok(SliceStep::Frame(body))
            },
            Ok(FramePoll::Idle) => Ok(SliceStep::Over),
            Ok(FramePoll::Partial) => Ok(SliceStep::Over),
            Ok(FramePoll::More) => Ok(SliceStep::More),
        }
    }
}

/// An idle stream never stalls: with no byte consumed, no slice fails
/// however long the silence.
pub proof fn law_silence_never_stalls(v: ReaderView, now: u64)
    requires
        v.seen.len() == 0,
    ensures
        !stalled(v, now),
{
}

/// A frame stalls exactly when some of it was seen and its time, counted from
/// its first byte, is over.
pub proof fn law_frames_stall_after_their_first_byte(v: ReaderView, now: u64, t: u64)
    ensures
        v.seen.len() > 0 && v.first_progress == Some(t) ==> (stalled(v, now) <==> now - t
            >= v.frame_timeout),
        v.seen.len() > 0 && v.first_progress is None ==> progress_at(v, now) == Some(now) && (
        stalled(v, now) <==> v.frame_timeout == 0),
        v.first_progress == Some(t) ==> progress_at(v, now) == Some(t),
{
}

} // verus!
