//! The capture scheduler: when to ask the render host for a snapshot, how
//! each result is tagged with its sequence number, and when the end of the
//! stream is announced.
use vstd::prelude::*;

use crate::timestamp::{frame_duration_ns, pts_of, FrameRate};

verus! {

/// A captured still image with its place in the stream.
#[derive(Debug)]
pub struct CapturedFrame {
    pub sequence: u64,
    pub payload: Vec<u8>,
}

/// What travels from the capture side to the encoding side.
#[derive(Debug)]
pub enum StreamMessage {
    Frame(CapturedFrame),
    /// No frame follows.
    EndOfStream,
}

/// A stream message as a value.
pub enum MessageView {
    Frame { sequence: u64, payload: Seq<u8> },
    EndOfStream,
}

impl View for StreamMessage {
    type V = MessageView;

    open spec fn view(&self) -> MessageView {
        match self {
            StreamMessage::Frame(f) => MessageView::Frame { sequence: f.sequence, payload: f.payload@ },
            StreamMessage::EndOfStream => MessageView::EndOfStream,
        }
    }
}

/// What the scheduler does in answer to one event: ask the host for a
/// snapshot, or hand a message to the channel.
pub enum Emitted {
    RequestCapture,
    Message(MessageView),
}

/// What the scheduler is told.
pub enum SchedulerEvent {
    /// One turn of the host's event loop, at `now_ns` on a monotonic clock.
    Tick { now_ns: u64 },
    /// The surface finished its first load.
    Loaded,
    /// The outstanding snapshot request resolved: its bytes, or `None` on error.
    Captured { payload: Option<Seq<u8>> },
    /// Recording is to end.
    Stop,
}

/// The abstract state of a scheduler. `issued` and `resolved` count the
/// snapshot requests made and the callbacks that came back.
pub struct SchedulerView {
    pub interval_ns: u64,
    pub frame_limit: Option<u64>,
    pub loaded: bool,
    pub stopping: bool,
    pub outstanding: bool,
    pub last_request_ns: u64,
    pub next_seq: u64,
    pub eos_sent: bool,
    pub issued: nat,
    pub resolved: nat,
}

impl SchedulerView {
    /// Requests not yet answered.
    pub open spec fn in_flight(self) -> int {
        self.issued - self.resolved
    }

    pub open spec fn wf(self) -> bool {
        &&& self.issued == self.resolved + (if self.outstanding { 1nat } else { 0nat })
        &&& self.eos_sent ==> self.stopping && !self.outstanding
        &&& (self.stopping && !self.outstanding) ==> self.eos_sent
    }

    pub open spec fn limit_reached(self) -> bool {
        self.frame_limit matches Some(limit) && self.next_seq >= limit
    }

    /// A request is due: recording, loaded, none outstanding, the limit not
    /// reached, and a full interval since the last request.
    pub open spec fn may_request(self, now_ns: u64) -> bool {
        &&& self.loaded
        &&& !self.stopping
        &&& !self.outstanding
        &&& !self.limit_reached()
        &&& now_ns >= self.last_request_ns
        &&& now_ns - self.last_request_ns >= self.interval_ns
    }
}

pub open spec fn initial_scheduler(interval_ns: u64, start_ns: u64, frame_limit: Option<u64>) -> SchedulerView {
    SchedulerView {
        interval_ns,
        frame_limit,
        loaded: false,
        stopping: false,
        outstanding: false,
        last_request_ns: start_ns,
        next_seq: 0,
        eos_sent: false,
        issued: 0,
        resolved: 0,
    }
}

/// A non-empty payload becomes the next frame; a failed or empty capture
/// takes no sequence number.
pub open spec fn accept_payload(s: SchedulerView, payload: Option<Seq<u8>>) -> (SchedulerView, Seq<Emitted>) {
    match payload {
        Some(bytes) => if bytes.len() > 0 && s.next_seq < u64::MAX {
            (
                SchedulerView { next_seq: (s.next_seq + 1) as u64, ..s },
                seq![Emitted::Message(MessageView::Frame { sequence: s.next_seq, payload: bytes })],
            )
        } else {
            (s, seq![])
        },
        None => (s, seq![]),
    }
}

/// Once stopping with nothing outstanding, the end of stream goes out, once.
pub open spec fn close_if_stopping(s: SchedulerView) -> (SchedulerView, Seq<Emitted>) {
    if s.stopping && !s.eos_sent {
        (SchedulerView { eos_sent: true, ..s }, seq![Emitted::Message(MessageView::EndOfStream)])
    } else {
        (s, seq![])
    }
}

pub open spec fn on_captured(s: SchedulerView, payload: Option<Seq<u8>>) -> (SchedulerView, Seq<Emitted>) {
    if !s.outstanding {
        (s, seq![])
    } else {
        let s1 = SchedulerView { outstanding: false, resolved: s.resolved + 1, ..s };
        let (s2, o2) = accept_payload(s1, payload);
        let s3 = if s2.limit_reached() { SchedulerView { stopping: true, ..s2 } } else { s2 };
        let (s4, o4) = close_if_stopping(s3);
        (s4, o2 + o4)
    }
}

/// The scheduler's answer to one event.
pub open spec fn step(s: SchedulerView, e: SchedulerEvent) -> (SchedulerView, Seq<Emitted>) {
    match e {
        SchedulerEvent::Tick { now_ns } => if s.may_request(now_ns) {
            (
                SchedulerView {
                    outstanding: true,
                    last_request_ns: now_ns,
                    issued: s.issued + 1,
                    ..s
                },
                seq![Emitted::RequestCapture],
            )
        } else {
            (s, seq![])
        },
        SchedulerEvent::Loaded => (SchedulerView { loaded: true, ..s }, seq![]),
        SchedulerEvent::Captured { payload } => on_captured(s, payload),
        SchedulerEvent::Stop => {
            let s1 = SchedulerView { stopping: true, ..s };
            if s1.outstanding {
                (s1, seq![])
            } else {
                close_if_stopping(s1)
            }
        },
    }
}

/// The state after a run of events, and everything emitted on the way.
pub open spec fn run(s: SchedulerView, events: Seq<SchedulerEvent>) -> (SchedulerView, Seq<Emitted>)
    decreases events.len(),
{
    if events.len() == 0 {
        (s, seq![])
    } else {
        let (before, out) = run(s, events.drop_last());
        let (after, more) = step(before, events.last());
        (after, out + more)
    }
}

pub open spec fn emitted_messages(msgs: Seq<StreamMessage>) -> Seq<Emitted> {
    msgs.map_values(|m: StreamMessage| Emitted::Message(m@))
}

pub open spec fn payload_view(payload: Option<Vec<u8>>) -> Option<Seq<u8>> {
    match payload {
        Some(bytes) => Some(bytes@),
        None => None,
    }
}

/// The scheduler that drives snapshot requests from the host's event loop.
pub struct CaptureScheduler {
    interval_ns: u64,
    frame_limit: Option<u64>,
    loaded: bool,
    stopping: bool,
    outstanding: bool,
    last_request_ns: u64,
    next_seq: u64,
    eos_sent: bool,
    issued: Ghost<nat>,
    resolved: Ghost<nat>,
}

impl View for CaptureScheduler {
    type V = SchedulerView;

    closed spec fn view(&self) -> SchedulerView {
        SchedulerView {
            interval_ns: self.interval_ns,
            frame_limit: self.frame_limit,
            loaded: self.loaded,
            stopping: self.stopping,
            outstanding: self.outstanding,
            last_request_ns: self.last_request_ns,
            next_seq: self.next_seq,
            eos_sent: self.eos_sent,
            issued: self.issued@,
            resolved: self.resolved@,
        }
    }
}

impl CaptureScheduler {
    /// A scheduler that requests a snapshot every `interval_ns`, counted from
    /// `start_ns`, and ends the stream by itself after `frame_limit` frames.
    pub fn with_interval(interval_ns: u64, start_ns: u64, frame_limit: Option<u64>) -> (r: CaptureScheduler)
        ensures
            r@ == initial_scheduler(interval_ns, start_ns, frame_limit),
            r@.wf(),
    {
        CaptureScheduler {
            interval_ns,
            frame_limit,
            loaded: false,
            stopping: false,
            outstanding: false,
            last_request_ns: start_ns,
            next_seq: 0,
            eos_sent: false,
            issued: Ghost(0),
            resolved: Ghost(0),
        }
    }

    /// A scheduler that requests one snapshot per frame at `rate`.
    pub fn new(rate: &FrameRate, start_ns: u64, frame_limit: Option<u64>) -> (r: CaptureScheduler)
        ensures
            r@ == initial_scheduler(
                pts_of(1, rate.spec_numer(), rate.spec_denom()) as u64,
                start_ns,
                frame_limit,
            ),
            r@.wf(),
    {
        CaptureScheduler::with_interval(frame_duration_ns(rate), start_ns, frame_limit)
    }

    pub fn is_outstanding(&self) -> (r: bool)
        ensures
            r == self@.outstanding,
    {
        self.outstanding
    }

    /// Whether the end of stream has gone out.
    pub fn is_finished(&self) -> (r: bool)
        ensures
            r == self@.eos_sent,
    {
        self.eos_sent
    }

    pub fn next_sequence(&self) -> (r: u64)
        ensures
            r == self@.next_seq,
    {
        self.next_seq
    }

    /// The surface finished loading: captures may begin.
    pub fn mark_loaded(&mut self)
        ensures
            (final(self)@, Seq::<Emitted>::empty()) == step(old(self)@, SchedulerEvent::Loaded),
    {
        self.loaded = true;
    }

    /// One turn of the event loop: `true` when a snapshot is to be requested
    /// now.
    pub fn tick(&mut self, now_ns: u64) -> (r: bool)
        ensures
            r == old(self)@.may_request(now_ns),
            final(self)@ == step(old(self)@, SchedulerEvent::Tick { now_ns }).0,
            step(old(self)@, SchedulerEvent::Tick { now_ns }).1 == (if r {
                seq![Emitted::RequestCapture]
            } else {
                Seq::<Emitted>::empty()
            }),
    {
        let due = self.loaded && !self.stopping && !self.outstanding && !self.limit_reached()
            && now_ns >= self.last_request_ns && now_ns - self.last_request_ns >= self.interval_ns;
        if due {
            self.outstanding = true;
            self.last_request_ns = now_ns;
            self.issued = Ghost(self.issued@ + 1);
        }
        due
    }

    fn limit_reached(&self) -> (r: bool)
        ensures
            r == self@.limit_reached(),
    {
        match self.frame_limit {
            Some(limit) => self.next_seq >= limit,
            None => false,
        }
    }

    fn close_if_stopping(&mut self, out: &mut Vec<StreamMessage>)
        ensures
            final(self)@ == close_if_stopping(old(self)@).0,
            emitted_messages(final(out)@) == emitted_messages(old(out)@) + close_if_stopping(old(self)@).1,
    {
        if self.stopping && !self.eos_sent {
            out.push(StreamMessage::EndOfStream);
            self.eos_sent = true;
        }
        assert(emitted_messages(out@) =~= emitted_messages(old(out)@) + close_if_stopping(old(self)@).1);
    }

    /// The outstanding request resolved with `payload` (`None` on error):
    /// the messages to hand to the channel, in order.
    pub fn on_capture(&mut self, payload: Option<Vec<u8>>) -> (r: Vec<StreamMessage>)
        ensures
            final(self)@ == step(old(self)@, SchedulerEvent::Captured { payload: payload_view(payload) }).0,
            emitted_messages(r@) == step(
                old(self)@,
                SchedulerEvent::Captured { payload: payload_view(payload) },
            ).1,
            r@.len() == step(old(self)@, SchedulerEvent::Captured { payload: payload_view(payload) }).1.len(),
            forall|i: int|
                0 <= i < r@.len() ==> step(
                    old(self)@,
                    SchedulerEvent::Captured { payload: payload_view(payload) },
                ).1[i] == Emitted::Message(#[trigger] r@[i]@),
    {
        let mut out: Vec<StreamMessage> = Vec::new();
        if !self.outstanding {
            assert(emitted_messages(out@) =~= Seq::<Emitted>::empty());
            return out;
        }
        self.outstanding = false;
        self.resolved = Ghost(self.resolved@ + 1);
        let ghost s1 = self@;
        match payload {
            Some(bytes) => {
                if bytes.len() > 0 && self.next_seq < u64::MAX {
                    out.push(StreamMessage::Frame(CapturedFrame { sequence: self.next_seq, payload: bytes }));
                    self.next_seq = self.next_seq + 1;
                }
            },
            None => {},
        }
        assert(emitted_messages(out@) =~= accept_payload(s1, payload_view(payload)).1);
        if self.limit_reached() {
            self.stopping = true;
        }
        self.close_if_stopping(&mut out);
        assert forall|i: int| 0 <= i < out@.len() implies emitted_messages(out@)[i] == Emitted::Message(
            #[trigger] out@[i]@,
        ) by {}
        out
    }

    /// Recording is to end: no further requests; the end of stream goes out
    /// now if nothing is outstanding, else once the outstanding capture
    /// resolves.
    pub fn stop(&mut self) -> (r: Vec<StreamMessage>)
        ensures
            final(self)@ == step(old(self)@, SchedulerEvent::Stop).0,
            emitted_messages(r@) == step(old(self)@, SchedulerEvent::Stop).1,
            r@.len() == step(old(self)@, SchedulerEvent::Stop).1.len(),
            forall|i: int|
                0 <= i < r@.len() ==> step(old(self)@, SchedulerEvent::Stop).1[i] == Emitted::Message(
                    #[trigger] r@[i]@,
                ),
    {
        let mut out: Vec<StreamMessage> = Vec::new();
        self.stopping = true;
        if !self.outstanding {
            self.close_if_stopping(&mut out);
        }
        assert(emitted_messages(out@) =~= step(old(self)@, SchedulerEvent::Stop).1);
        assert forall|i: int| 0 <= i < out@.len() implies emitted_messages(out@)[i] == Emitted::Message(
            #[trigger] out@[i]@,
        ) by {}
        out
    }
}

/// The frame messages of a log, in order.
pub open spec fn frame_messages(log: Seq<Emitted>) -> Seq<MessageView>
    decreases log.len(),
{
    if log.len() == 0 {
        seq![]
    } else {
        let rest = frame_messages(log.drop_last());
        match log.last() {
            Emitted::Message(MessageView::Frame { sequence, payload }) => rest.push(
                MessageView::Frame { sequence, payload },
            ),
            _ => rest,
        }
    }
}

/// The messages of a log, in order: what goes onto the channel.
pub open spec fn messages_of(log: Seq<Emitted>) -> Seq<MessageView>
    decreases log.len(),
{
    if log.len() == 0 {
        seq![]
    } else {
        let rest = messages_of(log.drop_last());
        match log.last() {
            Emitted::Message(m) => rest.push(m),
            Emitted::RequestCapture => rest,
        }
    }
}

/// `m` is the frame numbered `n`.
pub open spec fn is_frame_numbered(m: MessageView, n: int) -> bool {
    m matches MessageView::Frame { sequence, .. } && sequence == n
}

pub open spec fn is_end_of_stream(e: Emitted) -> bool {
    e == Emitted::Message(MessageView::EndOfStream)
}

/// The log holds the end of stream once, as its last entry.
pub open spec fn ends_with_single_end_of_stream(log: Seq<Emitted>) -> bool {
    &&& log.len() > 0
    &&& is_end_of_stream(log.last())
    &&& forall|i: int| 0 <= i < log.len() - 1 ==> !is_end_of_stream(#[trigger] log[i])
}

/// One step keeps the scheduler well formed; a request goes out only when
/// none is outstanding; an end of stream goes out last, with nothing in
/// flight, and only from a scheduler that had not sent one.
pub proof fn lemma_step_wf(s: SchedulerView, e: SchedulerEvent)
    requires
        s.wf(),
    ensures
        step(s, e).0.wf(),
        0 <= step(s, e).0.in_flight() <= 1,
        step(s, e).1.contains(Emitted::RequestCapture) ==> s.in_flight() == 0,
        step(s, e).1.contains(Emitted::Message(MessageView::EndOfStream)) ==> {
            &&& !s.eos_sent
            &&& step(s, e).0.eos_sent
            &&& step(s, e).0.in_flight() == 0
            &&& ends_with_single_end_of_stream(step(s, e).1)
        },
        s.eos_sent ==> step(s, e).1.len() == 0 && step(s, e).0.eos_sent,
{
    let out = step(s, e).1;
    let eos = Emitted::Message(MessageView::EndOfStream);
    if out.contains(eos) {
        let k = choose|k: int| 0 <= k < out.len() && out[k] == eos;
        assert(out[k] == eos);
    }
    if out.contains(Emitted::RequestCapture) {
        let k = choose|k: int| 0 <= k < out.len() && out[k] == Emitted::RequestCapture;
        assert(out[k] == Emitted::RequestCapture);
    }
}

/// At most one snapshot request is in flight, whatever the events and their
/// timing.
pub proof fn lemma_single_in_flight(s: SchedulerView, events: Seq<SchedulerEvent>)
    requires
        s.wf(),
    ensures
        run(s, events).0.wf(),
        0 <= run(s, events).0.in_flight() <= 1,
    decreases events.len(),
{
    if events.len() > 0 {
        lemma_single_in_flight(s, events.drop_last());
        lemma_step_wf(run(s, events.drop_last()).0, events.last());
    }
}

/// Once the end of stream has gone out, nothing more does.
pub proof fn lemma_nothing_after_end_of_stream(s: SchedulerView, events: Seq<SchedulerEvent>)
    requires
        s.wf(),
        s.eos_sent,
    ensures
        run(s, events).1.len() == 0,
        run(s, events).0.eos_sent,
        run(s, events).0.wf(),
    decreases events.len(),
{
    if events.len() > 0 {
        lemma_nothing_after_end_of_stream(s, events.drop_last());
        lemma_step_wf(run(s, events.drop_last()).0, events.last());
    }
}

/// While a stopped scheduler waits for its outstanding capture, it emits
/// nothing and keeps waiting.
proof fn lemma_waiting_is_quiet(s: SchedulerView, events: Seq<SchedulerEvent>)
    requires
        s.wf(),
        s.stopping,
        s.outstanding,
        forall|i: int| 0 <= i < events.len() ==> !(#[trigger] events[i] is Captured),
    ensures
        run(s, events).1.len() == 0,
        run(s, events).0.wf(),
        run(s, events).0.stopping,
        run(s, events).0.outstanding,
        run(s, events).0.in_flight() == 1,
    decreases events.len(),
{
    if events.len() > 0 {
        let prefix = events.drop_last();
        assert forall|i: int| 0 <= i < prefix.len() implies !(#[trigger] prefix[i] is Captured) by {
            assert(prefix[i] == events[i]);
        }
        lemma_waiting_is_quiet(s, prefix);
        assert(!(events[events.len() - 1] is Captured));
    }
}

/// Stopping with a capture in flight: nothing goes out until that capture's
/// callback resolves; then the end of stream goes out, once and last, with
/// nothing in flight; and nothing goes out after it.
pub proof fn lemma_clean_shutdown(
    s: SchedulerView,
    waiting: Seq<SchedulerEvent>,
    payload: Option<Seq<u8>>,
    later: Seq<SchedulerEvent>,
)
    requires
        s.wf(),
        s.outstanding,
        forall|i: int| 0 <= i < waiting.len() ==> !(#[trigger] waiting[i] is Captured),
    ensures
        ({
            let (s1, o1) = step(s, SchedulerEvent::Stop);
            let (s2, o2) = run(s1, waiting);
            let (s3, o3) = step(s2, SchedulerEvent::Captured { payload });
            let (s4, o4) = run(s3, later);
            &&& o1.len() == 0
            &&& o2.len() == 0
            &&& s2.in_flight() == 1
            &&& s2.wf() && s2.stopping && s2.outstanding
            &&& s3.in_flight() == 0
            &&& s3.eos_sent
            &&& ends_with_single_end_of_stream(o3)
            &&& o4.len() == 0
        }),
{
    let (s1, o1) = step(s, SchedulerEvent::Stop);
    lemma_step_wf(s, SchedulerEvent::Stop);
    lemma_waiting_is_quiet(s1, waiting);
    let (s2, o2) = run(s1, waiting);
    lemma_step_wf(s2, SchedulerEvent::Captured { payload });
    let (s3, o3) = step(s2, SchedulerEvent::Captured { payload });
    assert(o3.contains(Emitted::Message(MessageView::EndOfStream))) by {
        assert(o3[o3.len() - 1] == Emitted::Message(MessageView::EndOfStream));
    }
    lemma_nothing_after_end_of_stream(s3, later);
}

proof fn lemma_frame_messages_append(a: Seq<Emitted>, b: Seq<Emitted>)
    ensures
        frame_messages(a + b) == frame_messages(a) + frame_messages(b),
    decreases b.len(),
{
    if b.len() == 0 {
        assert(a + b =~= a);
        assert(frame_messages(b) =~= Seq::<MessageView>::empty());
        assert(frame_messages(a) + frame_messages(b) =~= frame_messages(a));
    } else {
        lemma_frame_messages_append(a, b.drop_last());
        assert((a + b).drop_last() =~= a + b.drop_last());
        assert((a + b).last() == b.last());
        let fb = frame_messages(b.drop_last());
        if let Emitted::Message(MessageView::Frame { sequence, payload }) = b.last() {
            let m = MessageView::Frame { sequence, payload };
            assert(frame_messages(a) + fb.push(m) =~= (frame_messages(a) + fb).push(m));
        }
    }
}

proof fn lemma_frame_messages_single(x: Emitted)
    ensures
        frame_messages(seq![x]) == (match x {
            Emitted::Message(MessageView::Frame { sequence, payload }) => seq![MessageView::Frame { sequence, payload }],
            _ => Seq::<MessageView>::empty(),
        }),
{
    assert(seq![x].drop_last() =~= Seq::<Emitted>::empty());
    assert(seq![x].last() == x);
    assert(frame_messages(Seq::<Emitted>::empty()) =~= Seq::<MessageView>::empty());
    if let Emitted::Message(MessageView::Frame { sequence, payload }) = x {
        assert(Seq::<MessageView>::empty().push(MessageView::Frame { sequence, payload }) =~= seq![
            MessageView::Frame { sequence, payload },
        ]);
    }
}

/// One step sends at most one frame, numbered with the scheduler's next
/// sequence number, which it then advances.
proof fn lemma_step_frames(s: SchedulerView, e: SchedulerEvent)
    ensures
        ({
            let (t, out) = step(s, e);
            let fm = frame_messages(out);
            &&& t.next_seq == s.next_seq + fm.len()
            &&& fm.len() <= 1
            &&& fm.len() == 1 ==> is_frame_numbered(fm[0], s.next_seq as int)
        }),
{
    let (t, out) = step(s, e);
    assert(frame_messages(Seq::<Emitted>::empty()) =~= Seq::<MessageView>::empty());
    match e {
        SchedulerEvent::Tick { now_ns } => {
            lemma_frame_messages_single(Emitted::RequestCapture);
        },
        SchedulerEvent::Captured { payload } => {
            if s.outstanding {
                let s1 = SchedulerView { outstanding: false, resolved: s.resolved + 1, ..s };
                let (s2, o2) = accept_payload(s1, payload);
                let s3 = if s2.limit_reached() { SchedulerView { stopping: true, ..s2 } } else { s2 };
                let (s4, o4) = close_if_stopping(s3);
                lemma_frame_messages_append(o2, o4);
                if o2.len() > 0 {
                    lemma_frame_messages_single(o2[0]);
                    assert(o2 =~= seq![o2[0]]);
                }
                if o4.len() > 0 {
                    lemma_frame_messages_single(o4[0]);
                    assert(o4 =~= seq![o4[0]]);
                }
                assert(frame_messages(o2) + frame_messages(o4) =~= frame_messages(o2));
            }
        },
        SchedulerEvent::Stop => {
            lemma_frame_messages_single(Emitted::Message(MessageView::EndOfStream));
        },
        SchedulerEvent::Loaded => {},
    }
}

/// Frames leave the scheduler numbered in order, without gaps, from the
/// scheduler's next sequence number on; failed captures take no number.
pub proof fn lemma_frames_numbered_in_order(s: SchedulerView, events: Seq<SchedulerEvent>)
    requires
        s.wf(),
    ensures
        run(s, events).0.next_seq == s.next_seq + frame_messages(run(s, events).1).len(),
        forall|i: int|
            0 <= i < frame_messages(run(s, events).1).len() ==> is_frame_numbered(
                #[trigger] frame_messages(run(s, events).1)[i],
                s.next_seq + i,
            ),
    decreases events.len(),
{
    if events.len() > 0 {
        let (before, out) = run(s, events.drop_last());
        lemma_frames_numbered_in_order(s, events.drop_last());
        let (after, more) = step(before, events.last());
        lemma_frame_messages_append(out, more);
        lemma_step_frames(before, events.last());
        let fo = frame_messages(out);
        let fm = frame_messages(more);
        let all = frame_messages(out + more);
        assert forall|i: int| 0 <= i < all.len() implies is_frame_numbered(
            #[trigger] all[i],
            s.next_seq + i,
        ) by {
            if i < fo.len() {
                assert(all[i] == fo[i]);
            } else {
                assert(all[i] == fm[i - fo.len()]);
            }
        }
    }
}

/// What a resolving capture sends while the scheduler is stopping: at most
/// one frame, then the end of stream.
pub proof fn lemma_final_messages(s: SchedulerView, payload: Option<Seq<u8>>)
    requires
        s.wf(),
        s.stopping,
        s.outstanding,
    ensures
        ({
            let msgs = messages_of(step(s, SchedulerEvent::Captured { payload }).1);
            &&& msgs.len() > 0
            &&& msgs.last() == MessageView::EndOfStream
            &&& forall|i: int| 0 <= i < msgs.len() - 1 ==> (#[trigger] msgs[i]) is Frame
        }),
{
    let s1 = SchedulerView { outstanding: false, resolved: s.resolved + 1, ..s };
    let (s2, o2) = accept_payload(s1, payload);
    let out = step(s, SchedulerEvent::Captured { payload }).1;
    let eos = Emitted::Message(MessageView::EndOfStream);
    assert(messages_of(Seq::<Emitted>::empty()) =~= Seq::<MessageView>::empty());
    if o2.len() == 0 {
        assert(out =~= seq![eos]);
        assert(out.drop_last() =~= Seq::<Emitted>::empty());
    } else {
        let f = o2[0];
        assert(out =~= seq![f, eos]);
        assert(out.drop_last() =~= seq![f]);
        assert(seq![f].drop_last() =~= Seq::<Emitted>::empty());
        assert(messages_of(seq![f]).len() == 1);
    }
}

/// The payload that one event turns into a frame, if any: the non-empty
/// payload of a capture that resolves the outstanding request.
pub open spec fn framed_payload(s: SchedulerView, e: SchedulerEvent) -> Option<Seq<u8>> {
    match e {
        SchedulerEvent::Captured { payload: Some(bytes) } => if s.outstanding && bytes.len() > 0
            && s.next_seq < u64::MAX {
            Some(bytes)
        } else {
            None
        },
        _ => None,
    }
}

/// The payloads that became frames during a run, in order.
pub open spec fn framed_payloads(s: SchedulerView, events: Seq<SchedulerEvent>) -> Seq<Seq<u8>>
    decreases events.len(),
{
    if events.len() == 0 {
        seq![]
    } else {
        let rest = framed_payloads(s, events.drop_last());
        match framed_payload(run(s, events.drop_last()).0, events.last()) {
            Some(bytes) => rest.push(bytes),
            None => rest,
        }
    }
}

/// Frames carrying `payloads`, numbered from `first` on.
pub open spec fn numbered_frames(first: nat, payloads: Seq<Seq<u8>>) -> Seq<MessageView> {
    Seq::new(
        payloads.len(),
        |i: int| MessageView::Frame { sequence: (first + i) as u64, payload: payloads[i] },
    )
}

proof fn lemma_step_frame_payload(s: SchedulerView, e: SchedulerEvent)
    ensures
        frame_messages(step(s, e).1) == (match framed_payload(s, e) {
            Some(bytes) => seq![MessageView::Frame { sequence: s.next_seq, payload: bytes }],
            None => Seq::<MessageView>::empty(),
        }),
        step(s, e).0.next_seq == s.next_seq + (if framed_payload(s, e) is Some { 1int } else { 0int }),
{
    lemma_step_frames(s, e);
    let out = step(s, e).1;
    assert(frame_messages(Seq::<Emitted>::empty()) =~= Seq::<MessageView>::empty());
    if let SchedulerEvent::Captured { payload } = e {
        if s.outstanding {
            let s1 = SchedulerView { outstanding: false, resolved: s.resolved + 1, ..s };
            let (s2, o2) = accept_payload(s1, payload);
            let s3 = if s2.limit_reached() { SchedulerView { stopping: true, ..s2 } } else { s2 };
            let (s4, o4) = close_if_stopping(s3);
            lemma_frame_messages_append(o2, o4);
            if o2.len() > 0 {
                lemma_frame_messages_single(o2[0]);
                assert(o2 =~= seq![o2[0]]);
            }
            if o4.len() > 0 {
                lemma_frame_messages_single(o4[0]);
                assert(o4 =~= seq![o4[0]]);
            }
            assert(frame_messages(o2) + frame_messages(o4) =~= frame_messages(o2));
        }
    }
}

/// What a run sends as frames is exactly the payloads that became frames,
/// numbered from the scheduler's next sequence number: when ticks and
/// callbacks happened plays no part beyond which payloads became frames.
pub proof fn lemma_frames_carry_payloads(s: SchedulerView, events: Seq<SchedulerEvent>)
    ensures
        frame_messages(run(s, events).1) == numbered_frames(s.next_seq as nat, framed_payloads(s, events)),
        run(s, events).0.next_seq == s.next_seq + framed_payloads(s, events).len(),
    decreases events.len(),
{
    if events.len() == 0 {
        assert(frame_messages(Seq::<Emitted>::empty()) =~= Seq::<MessageView>::empty());
        assert(numbered_frames(s.next_seq as nat, Seq::empty()) =~= Seq::<MessageView>::empty());
    } else {
        let (before, out) = run(s, events.drop_last());
        lemma_frames_carry_payloads(s, events.drop_last());
        let (after, more) = step(before, events.last());
        lemma_frame_messages_append(out, more);
        lemma_step_frame_payload(before, events.last());
        let prev = framed_payloads(s, events.drop_last());
        if let Some(bytes) = framed_payload(before, events.last()) {
            assert(numbered_frames(s.next_seq as nat, prev.push(bytes)) =~= numbered_frames(
                s.next_seq as nat,
                prev,
            ) + seq![MessageView::Frame { sequence: before.next_seq, payload: bytes }]);
        } else {
            assert(frame_messages(out) + frame_messages(more) =~= frame_messages(out));
        }
    }
}

} // verus!
