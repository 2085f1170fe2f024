//! The encoder session: the lifecycle of one streaming encoder and the
//! discipline on the timestamps of the frames it is fed.
use vstd::prelude::*;

use crate::timestamp::{
    frame_duration_ns, frame_timestamp_ns, pts_of, valid_rate, FrameRate, TimestampError,
};

verus! {

/// Largest width or height a session accepts (a signed 32-bit field).
pub const MAX_DIMENSION: u32 = 0x7fff_ffff;

/// Where a session stands in its one pass `Uninitialized -> Started -> Finalized`.
#[derive(Clone, Copy, Debug, PartialEq, Eq, Structural)]
pub enum Phase {
    Uninitialized,
    Started,
    Finalized,
}

/// Why a session could not be created.
#[derive(Clone, Copy, Debug, PartialEq, Eq, Structural)]
pub enum EncoderInitError {
    /// A width or height of zero, or beyond `MAX_DIMENSION`.
    InvalidDimensions,
}

/// Why an operation on a session failed.
#[derive(Clone, Copy, Debug, PartialEq, Eq, Structural)]
pub enum EncodeError {
    /// A push or finish before the session was started.
    NotStarted,
    /// A second start.
    AlreadyStarted,
    /// A finish, or a start, after the session was finalized.
    AlreadyFinalized,
    /// A push after the session was finalized.
    PushAfterFinalize,
    /// A timestamp not strictly later than the one pushed before it.
    NonMonotonicTimestamp { previous: u64, attempted: u64 },
    /// The frame's timestamp does not fit in 64-bit nanoseconds.
    TimestampOverflow,
    /// The backend is busy or flushing; the push may be tried again.
    PipelineBusy,
    /// The backend has already reached its end of stream.
    BackendEndOfStream,
    /// Any other failure of the backend.
    BackendFailure,
}

impl EncodeError {
    /// Only a busy backend is worth another try.
    pub fn is_retryable(&self) -> (r: bool)
        ensures
            r <==> *self == EncodeError::PipelineBusy,
    {
        match self {
            EncodeError::PipelineBusy => true,
            _ => false,
        }
    }
}

/// What the backend answered to one pushed buffer.
#[derive(Clone, Copy, Debug, PartialEq, Eq, Structural)]
pub enum FlowOutcome {
    /// The buffer was taken (any of the backend's success codes).
    Accepted,
    /// The backend is flushing.
    Flushing,
    /// The backend is past its end of stream.
    EndOfStream,
    /// Any other error code.
    Failed,
}

/// A message read from the backend while it drains at the end of a session.
#[derive(Clone, Copy, Debug, PartialEq, Eq, Structural)]
pub enum BusEvent {
    EndOfStream,
    Error,
    Other,
}

/// What to do after one message of the drain.
#[derive(Clone, Copy, Debug, PartialEq, Eq, Structural)]
pub enum DrainStep {
    /// Keep reading messages.
    Continue,
    /// The backend confirmed completion: release it.
    Completed,
    /// The backend failed: surface the error.
    Failed,
}

/// The timing stamped on a buffer handed to the backend.
#[derive(Clone, Copy, Debug, PartialEq, Eq, Structural)]
pub struct BufferTiming {
    pub pts_ns: u64,
    pub duration_ns: u64,
}

/// The abstract state of a session.
pub struct SessionView {
    pub width: nat,
    pub height: nat,
    pub numer: nat,
    pub denom: nat,
    pub phase: Phase,
    pub last_pts: Option<u64>,
}

pub open spec fn valid_dimensions(width: nat, height: nat) -> bool {
    0 < width <= MAX_DIMENSION && 0 < height <= MAX_DIMENSION
}

impl SessionView {
    pub open spec fn wf(self) -> bool {
        valid_dimensions(self.width, self.height) && valid_rate(self.numer, self.denom)
    }

    pub open spec fn with_phase(self, phase: Phase) -> SessionView {
        SessionView { phase, ..self }
    }

    pub open spec fn with_last_pts(self, pts: u64) -> SessionView {
        SessionView { last_pts: Some(pts), ..self }
    }
}

/// `r` succeeds or fails as `outcome` does, with the same error.
pub open spec fn same_outcome<T>(r: Result<T, EncodeError>, outcome: Result<(), EncodeError>) -> bool {
    match r {
        Ok(_) => outcome is Ok,
        Err(e) => outcome == Err::<(), EncodeError>(e),
    }
}

/// A fresh session: not started, nothing pushed.
pub open spec fn initial_session(width: nat, height: nat, numer: nat, denom: nat) -> SessionView {
    SessionView { width, height, numer, denom, phase: Phase::Uninitialized, last_pts: None }
}

pub open spec fn start_spec(s: SessionView) -> (SessionView, Result<(), EncodeError>) {
    match s.phase {
        Phase::Uninitialized => (s.with_phase(Phase::Started), Ok(())),
        Phase::Started => (s, Err(EncodeError::AlreadyStarted)),
        Phase::Finalized => (s, Err(EncodeError::AlreadyFinalized)),
    }
}

/// Whether a push is allowed in this phase, and the error when it is not.
pub open spec fn phase_push_error(phase: Phase) -> Option<EncodeError> {
    match phase {
        Phase::Uninitialized => Some(EncodeError::NotStarted),
        Phase::Started => None,
        Phase::Finalized => Some(EncodeError::PushAfterFinalize),
    }
}

/// A push of a frame at `pts`: it must come while the session is started,
/// strictly after the last pushed timestamp.
pub open spec fn push_at_spec(s: SessionView, pts: u64) -> (SessionView, Result<(), EncodeError>) {
    match phase_push_error(s.phase) {
        Some(e) => (s, Err(e)),
        None => match s.last_pts {
            Some(previous) if pts <= previous => (
                s,
                Err(EncodeError::NonMonotonicTimestamp { previous, attempted: pts }),
            ),
            _ => (s.with_last_pts(pts), Ok(())),
        },
    }
}

/// A push of frame `sequence`, stamped by the timestamp allocator.
pub open spec fn push_frame_spec(s: SessionView, sequence: nat) -> (SessionView, Result<(), EncodeError>) {
    let pts = pts_of(sequence, s.numer, s.denom);
    if pts > u64::MAX {
        (s, Err(EncodeError::TimestampOverflow))
    } else {
        push_at_spec(s, pts as u64)
    }
}

/// The backend answered `outcome` to a buffer stamped `pts`: an admissible
/// frame that the backend accepted moves the last timestamp on; anything else
/// leaves the session as it was.
pub open spec fn record_push_spec(s: SessionView, pts: u64, outcome: FlowOutcome) -> (SessionView, Result<(), EncodeError>) {
    match push_at_spec(s, pts) {
        (admitted, Ok(_)) => match flow_error(outcome) {
            None => (admitted, Ok(())),
            Some(e) => (s, Err(e)),
        },
        (_, Err(e)) => (s, Err(e)),
    }
}

pub open spec fn finish_spec(s: SessionView) -> (SessionView, Result<(), EncodeError>) {
    match s.phase {
        Phase::Uninitialized => (s, Err(EncodeError::NotStarted)),
        Phase::Started => (s.with_phase(Phase::Finalized), Ok(())),
        Phase::Finalized => (s, Err(EncodeError::AlreadyFinalized)),
    }
}

/// The error a backend answer stands for, if any.
pub open spec fn flow_error(outcome: FlowOutcome) -> Option<EncodeError> {
    match outcome {
        FlowOutcome::Accepted => None,
        FlowOutcome::Flushing => Some(EncodeError::PipelineBusy),
        FlowOutcome::EndOfStream => Some(EncodeError::BackendEndOfStream),
        FlowOutcome::Failed => Some(EncodeError::BackendFailure),
    }
}

/// Maps the backend's answer to a push onto the session's errors: flushing is
/// retryable, an end of stream is a logical error, anything else a failure.
pub fn classify_push_outcome(outcome: FlowOutcome) -> (r: Result<(), EncodeError>)
    ensures
        r == (match flow_error(outcome) {
            Some(e) => Err(e),
            None => Ok(()),
        }),
{
    match outcome {
        FlowOutcome::Accepted => Ok(()),
        FlowOutcome::Flushing => Err(EncodeError::PipelineBusy),
        FlowOutcome::EndOfStream => Err(EncodeError::BackendEndOfStream),
        FlowOutcome::Failed => Err(EncodeError::BackendFailure),
    }
}

/// One step of draining the backend after end of input: stop at its end of
/// stream, fail at its first error, and read on past anything else.
pub fn drain_step(event: BusEvent) -> (r: DrainStep)
    ensures
        r == (match event {
            BusEvent::EndOfStream => DrainStep::Completed,
            BusEvent::Error => DrainStep::Failed,
            BusEvent::Other => DrainStep::Continue,
        }),
{
    match event {
        BusEvent::EndOfStream => DrainStep::Completed,
        BusEvent::Error => DrainStep::Failed,
        BusEvent::Other => DrainStep::Continue,
    }
}

/// The session around a streaming encoder fed with still images: its
/// lifecycle and the timestamps of what it is fed. The backend itself is
/// driven by the caller, following what each method answers.
pub struct PngVideoEncoder {
    width: u32,
    height: u32,
    framerate: FrameRate,
    phase: Phase,
    last_pts: Option<u64>,
}

impl PngVideoEncoder {
    #[verifier::type_invariant]
    spec fn inv(self) -> bool {
        valid_dimensions(self.width as nat, self.height as nat)
    }
}

impl View for PngVideoEncoder {
    type V = SessionView;

    closed spec fn view(&self) -> SessionView {
        SessionView {
            width: self.width as nat,
            height: self.height as nat,
            numer: self.framerate.spec_numer(),
            denom: self.framerate.spec_denom(),
            phase: self.phase,
            last_pts: self.last_pts,
        }
    }
}

impl PngVideoEncoder {
    /// A session for frames of `width` x `height` at `framerate`, not yet
    /// started; `InvalidDimensions` exactly when a dimension is zero or beyond
    /// `MAX_DIMENSION`.
    pub fn new(width: u32, height: u32, framerate: FrameRate) -> (r: Result<
        PngVideoEncoder,
        EncoderInitError,
    >)
        ensures
            r is Ok <==> valid_dimensions(width as nat, height as nat),
            r matches Err(e) ==> e == EncoderInitError::InvalidDimensions,
            r matches Ok(enc) ==> enc@ == initial_session(
                width as nat,
                height as nat,
                framerate.spec_numer(),
                framerate.spec_denom(),
            ),
    {
        if width == 0 || width > MAX_DIMENSION || height == 0 || height > MAX_DIMENSION {
            Err(EncoderInitError::InvalidDimensions)
        } else {
            Ok(PngVideoEncoder { width, height, framerate, phase: Phase::Uninitialized, last_pts: None })
        }
    }

    /// The frame width; every session is well formed, its dimensions checked
    /// when it was made and its rate carrying its own invariant.
    pub fn width(&self) -> (r: u32)
        ensures
            r == self@.width,
            self@.wf(),
    {
        proof {
            use_type_invariant(self);
        }
        let _ = self.framerate.numer();
        self.width
    }

    pub fn height(&self) -> (r: u32)
        ensures
            r == self@.height,
    {
        self.height
    }

    pub fn framerate(&self) -> (r: FrameRate)
        ensures
            r.spec_numer() == self@.numer,
            r.spec_denom() == self@.denom,
    {
        self.framerate
    }

    pub fn phase(&self) -> (r: Phase)
        ensures
            r == self@.phase,
    {
        self.phase
    }

    pub fn last_pts(&self) -> (r: Option<u64>)
        ensures
            r == self@.last_pts,
    {
        self.last_pts
    }

    /// Moves an unstarted session to `Started`.
    pub fn start(&mut self) -> (r: Result<(), EncodeError>)
        ensures
            (final(self)@, r) == start_spec(old(self)@),
    {
        proof {
            use_type_invariant(&*self);
        }
        match self.phase {
            Phase::Uninitialized => {
                self.phase = Phase::Started;
                Ok(())
            },
            Phase::Started => Err(EncodeError::AlreadyStarted),
            Phase::Finalized => Err(EncodeError::AlreadyFinalized),
        }
    }

    /// Whether a frame stamped `timestamp_ns` may be handed to the backend:
    /// the session must be started and the timestamp strictly later than the
    /// last one the backend accepted. Returns the timing to stamp on the
    /// buffer; nothing is recorded until the backend answers.
    pub fn timing_for_timestamp(&self, timestamp_ns: u64) -> (r: Result<BufferTiming, EncodeError>)
        ensures
            same_outcome(r, push_at_spec(self@, timestamp_ns).1),
            r matches Ok(t) ==> t.pts_ns == timestamp_ns && t.duration_ns == pts_of(
                1,
                self@.numer,
                self@.denom,
            ),
    {
        if let Some(e) = push_error(self.phase) {
            return Err(e);
        }
        if let Some(previous) = self.last_pts {
            if timestamp_ns <= previous {
                return Err(EncodeError::NonMonotonicTimestamp { previous, attempted: timestamp_ns });
            }
        }
        Ok(BufferTiming { pts_ns: timestamp_ns, duration_ns: frame_duration_ns(&self.framerate) })
    }

    /// Whether frame `sequence` may be handed to the backend, stamped with
    /// its presentation timestamp at the session's rate.
    pub fn timing_for_frame(&self, sequence: u64) -> (r: Result<BufferTiming, EncodeError>)
        ensures
            same_outcome(r, push_frame_spec(self@, sequence as nat).1),
            r matches Ok(t) ==> t.pts_ns == pts_of(sequence as nat, self@.numer, self@.denom)
                && t.duration_ns == pts_of(1, self@.numer, self@.denom),
    {
        match frame_timestamp_ns(sequence, &self.framerate) {
            Ok(pts) => self.timing_for_timestamp(pts),
            Err(TimestampError::Overflow) => Err(EncodeError::TimestampOverflow),
        }
    }

    /// Records the backend's answer to a buffer stamped `timestamp_ns`: the
    /// timestamp becomes the last one pushed only when the frame was
    /// admissible and the backend accepted it, so a busy backend's frame can
    /// be pushed again at the same timestamp.
    pub fn push_png_buffer_with_timestamp(&mut self, timestamp_ns: u64, outcome: FlowOutcome) -> (r: Result<
        (),
        EncodeError,
    >)
        ensures
            (final(self)@, r) == record_push_spec(old(self)@, timestamp_ns, outcome),
    {
        proof {
            use_type_invariant(&*self);
        }
        match self.timing_for_timestamp(timestamp_ns) {
            Err(e) => Err(e),
            Ok(_) => match classify_push_outcome(outcome) {
                Ok(()) => {
                    self.last_pts = Some(timestamp_ns);
                    Ok(())
                },
                Err(e) => Err(e),
            },
        }
    }

    /// Admits a frame that carries no timestamp of its own: only the phase
    /// is checked.
    pub fn push_png_buffer(&self) -> (r: Result<(), EncodeError>)
        ensures
            r == (match phase_push_error(self@.phase) {
                Some(e) => Err(e),
                None => Ok(()),
            }),
    {
        match push_error(self.phase) {
            Some(e) => Err(e),
            None => Ok(()),
        }
    }

    /// Ends the input: a started session becomes `Finalized`; a second
    /// finish answers `AlreadyFinalized` and changes nothing.
    pub fn finish(&mut self) -> (r: Result<(), EncodeError>)
        ensures
            (final(self)@, r) == finish_spec(old(self)@),
    {
        proof {
            use_type_invariant(&*self);
        }
        match self.phase {
            Phase::Uninitialized => Err(EncodeError::NotStarted),
            Phase::Started => {
                self.phase = Phase::Finalized;
                Ok(())
            },
            Phase::Finalized => Err(EncodeError::AlreadyFinalized),
        }
    }
}

fn push_error(phase: Phase) -> (r: Option<EncodeError>)
    ensures
        r == phase_push_error(phase),
{
    match phase {
        Phase::Uninitialized => Some(EncodeError::NotStarted),
        Phase::Started => None,
        Phase::Finalized => Some(EncodeError::PushAfterFinalize),
    }
}

/// Finalizing twice: the second call answers `AlreadyFinalized` and leaves
/// the session exactly as the first call left it, and no frame is admitted
/// after a finalize.
pub proof fn lemma_finalize_guard(s: SessionView, pts: u64)
    requires
        s.phase != Phase::Uninitialized,
    ensures
        finish_spec(finish_spec(s).0) == (finish_spec(s).0, Err::<(), EncodeError>(EncodeError::AlreadyFinalized)),
        push_at_spec(finish_spec(s).0, pts) == (finish_spec(s).0, Err::<(), EncodeError>(EncodeError::PushAfterFinalize)),
        s.phase == Phase::Started ==> finish_spec(s).1 is Ok,
{
}

} // verus!
