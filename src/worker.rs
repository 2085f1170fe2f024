//! The encoding side of the stream: what to do with each message taken off
//! the channel.
use vstd::prelude::*;

use crate::decode::{decode_frame, decode_spec, decoded_view, DecodeError, RawFrame, RawFrameView};
use crate::scheduler::{
    frame_messages, framed_payloads, is_frame_numbered, lemma_clean_shutdown,
    lemma_frames_carry_payloads, lemma_final_messages,
    lemma_frames_numbered_in_order, messages_of, run, step, MessageView, SchedulerEvent,
    SchedulerView, StreamMessage,
};
use crate::session::{
    finish_spec, push_frame_spec, record_push_spec, start_spec, BufferTiming, EncodeError,
    FlowOutcome, Phase, PngVideoEncoder, SessionView,
};
use crate::timestamp::{lemma_pts_strictly_increasing, pts_of};

verus! {

/// What the caller is to do with the backend after one message.
pub enum WorkerAction {
    /// Hand this frame to the backend, stamped with this timing.
    Encode { frame: RawFrame, timing: BufferTiming },
    /// The frame was dropped; recording goes on.
    Dropped(DecodeError),
    /// The input is over: drain the backend and release it.
    Finish,
    /// A session-level error: recording is to be aborted.
    Fail(EncodeError),
}

/// A worker action as a value.
pub enum WorkerOutcome {
    Encode { frame: RawFrameView, pts_ns: u64, duration_ns: u64 },
    Dropped(DecodeError),
    Finish,
    Fail(EncodeError),
}

impl View for WorkerAction {
    type V = WorkerOutcome;

    open spec fn view(&self) -> WorkerOutcome {
        match self {
            WorkerAction::Encode { frame, timing } => WorkerOutcome::Encode {
                frame: frame@,
                pts_ns: timing.pts_ns,
                duration_ns: timing.duration_ns,
            },
            WorkerAction::Dropped(e) => WorkerOutcome::Dropped(*e),
            WorkerAction::Finish => WorkerOutcome::Finish,
            WorkerAction::Fail(e) => WorkerOutcome::Fail(*e),
        }
    }
}

/// A decoded frame is stamped from its sequence number and, when the session
/// admits it, handed to the backend; a frame that did not decode is dropped.
/// The session changes only once the backend has answered.
pub open spec fn handle_decoded_spec(
    w: SessionView,
    sequence: u64,
    decoded: Result<RawFrameView, DecodeError>,
) -> (SessionView, WorkerOutcome) {
    match decoded {
        Err(e) => (w, WorkerOutcome::Dropped(e)),
        Ok(frame) => {
            match push_frame_spec(w, sequence as nat).1 {
                Ok(_) => (
                    w,
                    WorkerOutcome::Encode {
                        frame,
                        pts_ns: pts_of(sequence as nat, w.numer, w.denom) as u64,
                        duration_ns: pts_of(1, w.numer, w.denom) as u64,
                    },
                ),
                Err(e) => (w, WorkerOutcome::Fail(e)),
            }
        },
    }
}

/// The worker's answer to one message.
pub open spec fn worker_step(w: SessionView, msg: MessageView) -> (SessionView, WorkerOutcome) {
    match msg {
        MessageView::Frame { sequence, payload } => handle_decoded_spec(
            w,
            sequence,
            decode_spec(payload, w.width as u32, w.height as u32),
        ),
        MessageView::EndOfStream => {
            let (w2, r) = finish_spec(w);
            match r {
                Ok(_) => (w2, WorkerOutcome::Finish),
                Err(e) => (w, WorkerOutcome::Fail(e)),
            }
        },
    }
}

/// The session once the backend accepted what the worker handed it.
pub open spec fn settle(w: SessionView, o: WorkerOutcome) -> SessionView {
    match o {
        WorkerOutcome::Encode { pts_ns, .. } => record_push_spec(w, pts_ns, FlowOutcome::Accepted).0,
        _ => w,
    }
}

/// The session after a run of messages, and the worker's answers in order,
/// where the backend accepts every frame handed to it.
pub open spec fn worker_run(w: SessionView, msgs: Seq<MessageView>) -> (SessionView, Seq<WorkerOutcome>)
    decreases msgs.len(),
{
    if msgs.len() == 0 {
        (w, seq![])
    } else {
        let (w1, o) = worker_step(w, msgs[0]);
        let (w2, os) = worker_run(settle(w1, o), msgs.drop_first());
        (w2, seq![o] + os)
    }
}

/// The consumer of the frame channel: owns the session and decides, message
/// by message, what the backend is to do.
pub struct EncoderWorker {
    session: PngVideoEncoder,
}

impl View for EncoderWorker {
    type V = SessionView;

    closed spec fn view(&self) -> SessionView {
        self.session@
    }
}

impl EncoderWorker {
    pub fn new(session: PngVideoEncoder) -> (r: EncoderWorker)
        ensures
            r@ == session@,
    {
        EncoderWorker { session }
    }

    pub fn session(&self) -> (r: &PngVideoEncoder)
        ensures
            r@ == self@,
    {
        &self.session
    }

    /// Gives up the worker for its session.
    pub fn into_session(self) -> (r: PngVideoEncoder)
        ensures
            r@ == self@,
    {
        self.session
    }

    /// Starts the session before the first message.
    pub fn start(&mut self) -> (r: Result<(), EncodeError>)
        ensures
            (final(self)@, r) == start_spec(old(self)@),
    {
        self.session.start()
    }

    /// Takes the outcome of decoding frame `sequence`.
    pub fn handle_decoded(&mut self, sequence: u64, decoded: Result<RawFrame, DecodeError>) -> (r: WorkerAction)
        ensures
            (final(self)@, r@) == handle_decoded_spec(old(self)@, sequence, decoded_view(decoded)),
    {
        match decoded {
            Err(e) => WorkerAction::Dropped(e),
            Ok(frame) => match self.session.timing_for_frame(sequence) {
                Ok(timing) => WorkerAction::Encode { frame, timing },
                Err(e) => WorkerAction::Fail(e),
            },
        }
    }

    /// Records the backend's answer to the frame handed to it at `timing`;
    /// after a retryable answer the same frame may be handed over again.
    pub fn on_pushed(&mut self, timing: BufferTiming, outcome: FlowOutcome) -> (r: Result<(), EncodeError>)
        ensures
            (final(self)@, r) == record_push_spec(old(self)@, timing.pts_ns, outcome),
    {
        self.session.push_png_buffer_with_timestamp(timing.pts_ns, outcome)
    }

    /// Takes one message off the channel: a frame is decoded, checked against
    /// the session's dimensions and stamped; the end of stream finalizes the
    /// session.
    pub fn handle(&mut self, msg: StreamMessage) -> (r: WorkerAction)
        ensures
            (final(self)@, r@) == worker_step(old(self)@, msg@),
    {
        match msg {
            StreamMessage::Frame(f) => {
                let width = self.session.width();
                let height = self.session.height();
                let decoded = decode_frame(f.payload.as_slice(), width, height);
                self.handle_decoded(f.sequence, decoded)
            },
            StreamMessage::EndOfStream => match self.session.finish() {
                Ok(()) => WorkerAction::Finish,
                Err(e) => WorkerAction::Fail(e),
            },
        }
    }
}

pub open spec fn frame_sequence(m: MessageView) -> u64 {
    match m {
        MessageView::Frame { sequence, .. } => sequence,
        MessageView::EndOfStream => 0,
    }
}

pub open spec fn frame_payload(m: MessageView) -> Seq<u8> {
    match m {
        MessageView::Frame { payload, .. } => payload,
        MessageView::EndOfStream => Seq::empty(),
    }
}

/// Frames only, numbered in strictly increasing order, each of whose
/// timestamps fits in 64-bit nanoseconds.
pub open spec fn increasing_frames(msgs: Seq<MessageView>, numer: nat, denom: nat) -> bool {
    &&& forall|i: int| 0 <= i < msgs.len() ==> (#[trigger] msgs[i]) is Frame
    &&& forall|i: int, j: int|
        0 <= i < j < msgs.len() ==> frame_sequence(#[trigger] msgs[i]) < frame_sequence(#[trigger] msgs[j])
    &&& forall|i: int|
        0 <= i < msgs.len() ==> pts_of(frame_sequence(#[trigger] msgs[i]) as nat, numer, denom) <= u64::MAX
}

/// A frame that decodes is encoded at the timestamp of its own sequence
/// number; one that does not is dropped.
pub open spec fn expected_frame_outcome(w: SessionView, m: MessageView) -> WorkerOutcome {
    match decode_spec(frame_payload(m), w.width as u32, w.height as u32) {
        Ok(frame) => WorkerOutcome::Encode {
            frame,
            pts_ns: pts_of(frame_sequence(m) as nat, w.numer, w.denom) as u64,
            duration_ns: pts_of(1, w.numer, w.denom) as u64,
        },
        Err(e) => WorkerOutcome::Dropped(e),
    }
}

/// `o` encodes a frame at `pts`.
pub open spec fn is_encoded_at(o: WorkerOutcome, pts: int) -> bool {
    o matches WorkerOutcome::Encode { pts_ns, .. } && pts_ns == pts
}

pub open spec fn encoded_pts(o: WorkerOutcome) -> int {
    match o {
        WorkerOutcome::Encode { pts_ns, .. } => pts_ns as int,
        _ => -1,
    }
}

proof fn lemma_pts_nonneg(sequence: nat, numer: nat, denom: nat)
    requires
        numer > 0,
    ensures
        pts_of(sequence, numer, denom) >= 0,
{
    let x = (sequence * denom * 1_000_000_000 + numer / 2) as int;
    assert(x >= 0) by (nonlinear_arith)
        requires
            x == sequence * denom * 1_000_000_000 + numer / 2,
            numer > 0,
    ;
    assert(x / (numer as int) >= 0) by (nonlinear_arith)
        requires
            x >= 0,
            numer > 0,
    ;
}

/// Dropped frames leave no trace in the numbering: every frame that decodes
/// reaches the encoder in arrival order at the timestamp of its own sequence
/// number, and every other frame is dropped.
pub proof fn lemma_drops_keep_numbering(w: SessionView, msgs: Seq<MessageView>)
    requires
        w.wf(),
        w.phase == Phase::Started,
        increasing_frames(msgs, w.numer, w.denom),
        msgs.len() > 0 ==> (w.last_pts matches Some(p) ==> p < pts_of(
            frame_sequence(msgs[0]) as nat,
            w.numer,
            w.denom,
        )),
    ensures
        worker_run(w, msgs).1.len() == msgs.len(),
        forall|i: int|
            0 <= i < msgs.len() ==> #[trigger] worker_run(w, msgs).1[i] == expected_frame_outcome(
                w,
                msgs[i],
            ),
        worker_run(w, msgs).0.phase == Phase::Started,
    decreases msgs.len(),
{
    if msgs.len() > 0 {
        let m = msgs[0];
        assert(m is Frame);
        let sq = frame_sequence(m);
        lemma_pts_nonneg(sq as nat, w.numer, w.denom);
        let (w0, o) = worker_step(w, m);
        let w1 = settle(w0, o);
        assert(o == expected_frame_outcome(w, m));
        let rest = msgs.drop_first();
        assert forall|i: int| 0 <= i < rest.len() implies #[trigger] rest[i] == msgs[i + 1] by {}
        assert(increasing_frames(rest, w1.numer, w1.denom)) by {
            assert forall|i: int, j: int| 0 <= i < j < rest.len() implies frame_sequence(
                #[trigger] rest[i],
            ) < frame_sequence(#[trigger] rest[j]) by {
                assert(rest[i] == msgs[i + 1] && rest[j] == msgs[j + 1]);
            }
            assert forall|i: int| 0 <= i < rest.len() implies (#[trigger] rest[i]) is Frame by {
                assert(rest[i] == msgs[i + 1]);
            }
            assert forall|i: int| 0 <= i < rest.len() implies pts_of(
                frame_sequence(#[trigger] rest[i]) as nat,
                w1.numer,
                w1.denom,
            ) <= u64::MAX by {
                assert(rest[i] == msgs[i + 1]);
            }
        }
        if rest.len() > 0 {
            assert(rest[0] == msgs[1]);
            lemma_pts_strictly_increasing(sq as nat, frame_sequence(msgs[1]) as nat, w.numer, w.denom);
        }
        lemma_drops_keep_numbering(w1, rest);
        let outs = worker_run(w, msgs).1;
        assert forall|i: int| 0 <= i < msgs.len() implies #[trigger] outs[i] == expected_frame_outcome(
            w,
            msgs[i],
        ) by {
            if i > 0 {
                assert(outs[i] == worker_run(w1, rest).1[i - 1]);
                assert(rest[i - 1] == msgs[i]);
            }
        }
    }
}

/// Constant frame rate: whatever the timing of ticks and callbacks, the
/// frames of a fresh scheduler whose captures all decode reach the encoder
/// at timestamps `i / rate` for `i = 0, 1, 2, ...`, strictly increasing.
pub proof fn lemma_constant_rate_timestamps(w: SessionView, s: SchedulerView, events: Seq<SchedulerEvent>)
    requires
        w.wf(),
        w.phase == Phase::Started,
        w.last_pts is None,
        s.wf(),
        s.next_seq == 0,
        forall|i: int|
            0 <= i < frame_messages(run(s, events).1).len() ==> decode_spec(
                frame_payload(#[trigger] frame_messages(run(s, events).1)[i]),
                w.width as u32,
                w.height as u32,
            ) is Ok,
        frame_messages(run(s, events).1).len() > 0 ==> pts_of(
            (frame_messages(run(s, events).1).len() - 1) as nat,
            w.numer,
            w.denom,
        ) <= u64::MAX,
    ensures
        ({
            let outs = worker_run(w, frame_messages(run(s, events).1)).1;
            &&& outs.len() == frame_messages(run(s, events).1).len()
            &&& forall|i: int| 0 <= i < outs.len() ==> is_encoded_at(#[trigger] outs[i], pts_of(i as nat, w.numer, w.denom))
            &&& forall|i: int, j: int| 0 <= i < j < outs.len() ==> encoded_pts(#[trigger] outs[i]) < encoded_pts(#[trigger] outs[j])
        }),
{
    let fm = frame_messages(run(s, events).1);
    lemma_frames_numbered_in_order(s, events);
    assert forall|i: int| 0 <= i < fm.len() implies frame_sequence(#[trigger] fm[i]) == i by {
        assert(is_frame_numbered(fm[i], s.next_seq + i));
    }
    assert(increasing_frames(fm, w.numer, w.denom)) by {
        assert forall|i: int| 0 <= i < fm.len() implies (#[trigger] fm[i]) is Frame by {
            assert(is_frame_numbered(fm[i], s.next_seq + i));
        }
        assert forall|i: int| 0 <= i < fm.len() implies pts_of(
            frame_sequence(#[trigger] fm[i]) as nat,
            w.numer,
            w.denom,
        ) <= u64::MAX by {
            if i < fm.len() - 1 {
                lemma_pts_strictly_increasing(i as nat, (fm.len() - 1) as nat, w.numer, w.denom);
            }
        }
    }
    lemma_drops_keep_numbering(w, fm);
    let outs = worker_run(w, fm).1;
    assert forall|i: int| 0 <= i < outs.len() implies is_encoded_at(
        #[trigger] outs[i],
        pts_of(i as nat, w.numer, w.denom),
    ) by {
        assert(outs[i] == expected_frame_outcome(w, fm[i]));
        lemma_pts_nonneg(i as nat, w.numer, w.denom);
    }
    assert forall|i: int, j: int| 0 <= i < j < outs.len() implies encoded_pts(#[trigger] outs[i])
        < encoded_pts(#[trigger] outs[j]) by {
        assert(is_encoded_at(outs[i], pts_of(i as nat, w.numer, w.denom)));
        assert(is_encoded_at(outs[j], pts_of(j as nat, w.numer, w.denom)));
        lemma_pts_strictly_increasing(i as nat, j as nat, w.numer, w.denom);
    }
}

/// How many times the worker finalized the session.
pub open spec fn finish_count(outs: Seq<WorkerOutcome>) -> nat
    decreases outs.len(),
{
    if outs.len() == 0 {
        0
    } else {
        (if outs[0] is Finish { 1nat } else { 0nat }) + finish_count(outs.drop_first())
    }
}

proof fn lemma_finalized_stays_finalized(w: SessionView, msgs: Seq<MessageView>)
    requires
        w.phase == Phase::Finalized,
    ensures
        finish_count(worker_run(w, msgs).1) == 0,
        worker_run(w, msgs).0.phase == Phase::Finalized,
    decreases msgs.len(),
{
    if msgs.len() > 0 {
        let (w0, o) = worker_step(w, msgs[0]);
        let w1 = settle(w0, o);
        assert((seq![o] + worker_run(w1, msgs.drop_first()).1).drop_first() =~= worker_run(
            w1,
            msgs.drop_first(),
        ).1);
        lemma_finalized_stays_finalized(w1, msgs.drop_first());
    }
}

/// The session is finalized at most once, whatever messages arrive.
pub proof fn lemma_finish_at_most_once(w: SessionView, msgs: Seq<MessageView>)
    ensures
        finish_count(worker_run(w, msgs).1) <= 1,
    decreases msgs.len(),
{
    if msgs.len() > 0 {
        let (w0, o) = worker_step(w, msgs[0]);
        let w1 = settle(w0, o);
        let rest = worker_run(w1, msgs.drop_first()).1;
        assert((seq![o] + rest).drop_first() =~= rest);
        if o is Finish {
            lemma_finalized_stays_finalized(w1, msgs.drop_first());
        } else {
            lemma_finish_at_most_once(w1, msgs.drop_first());
        }
    }
}

/// A started session fed frames and then a single end of stream is finalized
/// exactly once, by that last message.
pub proof fn lemma_finish_on_end_of_stream(w: SessionView, msgs: Seq<MessageView>)
    requires
        w.phase == Phase::Started,
        msgs.len() > 0,
        msgs.last() == MessageView::EndOfStream,
        forall|i: int| 0 <= i < msgs.len() - 1 ==> (#[trigger] msgs[i]) is Frame,
    ensures
        finish_count(worker_run(w, msgs).1) == 1,
        worker_run(w, msgs).1.last() == WorkerOutcome::Finish,
    decreases msgs.len(),
{
    let (w0, o) = worker_step(w, msgs[0]);
    let w1 = settle(w0, o);
    let rest_msgs = msgs.drop_first();
    let rest = worker_run(w1, rest_msgs).1;
    assert((seq![o] + rest).drop_first() =~= rest);
    assert((seq![o] + rest)[0] == o);
    if msgs.len() == 1 {
        assert(msgs[0] == msgs.last());
        assert(rest =~= Seq::<WorkerOutcome>::empty());
        assert(finish_count(rest) == 0);
        assert(o is Finish);
    } else {
        assert(msgs[0] is Frame);
        assert(!(o is Finish));
        assert(w1.phase == Phase::Started);
        assert(rest_msgs.last() == msgs.last());
        assert forall|i: int| 0 <= i < rest_msgs.len() - 1 implies (#[trigger] rest_msgs[i]) is Frame by {
            assert(rest_msgs[i] == msgs[i + 1]);
        }
        lemma_finish_on_end_of_stream(w1, rest_msgs);
        assert((seq![o] + rest).last() == rest.last());
    }
}

/// Clean shutdown end to end: a scheduler stopped with a capture in flight
/// sends nothing until that capture resolves; the messages it then sends
/// finalize a started session exactly once, with the end of stream last.
pub proof fn lemma_shutdown_finishes_once(
    w: SessionView,
    s: SchedulerView,
    waiting: Seq<SchedulerEvent>,
    payload: Option<Seq<u8>>,
)
    requires
        w.phase == Phase::Started,
        s.wf(),
        s.outstanding,
        forall|i: int| 0 <= i < waiting.len() ==> !(#[trigger] waiting[i] is Captured),
    ensures
        ({
            let (s1, o1) = step(s, SchedulerEvent::Stop);
            let (s2, o2) = run(s1, waiting);
            let msgs = messages_of(step(s2, SchedulerEvent::Captured { payload }).1);
            &&& o1.len() == 0
            &&& o2.len() == 0
            &&& msgs.last() == MessageView::EndOfStream
            &&& finish_count(worker_run(w, msgs).1) == 1
            &&& worker_run(w, msgs).1.last() == WorkerOutcome::Finish
        }),
{
    lemma_clean_shutdown(s, waiting, payload, Seq::empty());
    let (s1, o1) = step(s, SchedulerEvent::Stop);
    let (s2, o2) = run(s1, waiting);
    lemma_final_messages(s2, payload);
    let msgs = messages_of(step(s2, SchedulerEvent::Captured { payload }).1);
    lemma_finish_on_end_of_stream(w, msgs);
}

/// Timing plays no part in the output: two runs of a scheduler that differ
/// only in when ticks and callbacks happened, but turn the same capture
/// payloads into frames, send the same frames, and the worker hands the
/// backend the same frames at the same timestamps.
pub proof fn lemma_output_independent_of_timing(
    w: SessionView,
    s: SchedulerView,
    first: Seq<SchedulerEvent>,
    second: Seq<SchedulerEvent>,
)
    requires
        framed_payloads(s, first) == framed_payloads(s, second),
    ensures
        frame_messages(run(s, first).1) == frame_messages(run(s, second).1),
        worker_run(w, frame_messages(run(s, first).1)) == worker_run(w, frame_messages(run(s, second).1)),
{
    lemma_frames_carry_payloads(s, first);
    lemma_frames_carry_payloads(s, second);
}

} // verus!
