use std::io::Cursor;
use webview_recorder::decode::DecodeError;
use webview_recorder::scheduler::{CaptureScheduler, CapturedFrame, StreamMessage};
use webview_recorder::session::{EncodeError, FlowOutcome, Phase, PngVideoEncoder};
use webview_recorder::timestamp::FrameRate;
use webview_recorder::worker::{EncoderWorker, WorkerAction};

const WIDTH: u32 = 4;
const HEIGHT: u32 = 3;

fn png(width: u32, height: u32) -> Vec<u8> {
    let img = image::RgbaImage::from_pixel(width, height, image::Rgba([1, 2, 3, 255]));
    let mut out = Cursor::new(Vec::new());
    img.write_to(&mut out, image::ImageFormat::Png).unwrap();
    out.into_inner()
}

fn worker() -> EncoderWorker {
    let mut session = PngVideoEncoder::new(WIDTH, HEIGHT, FrameRate::from_fps(30).unwrap()).unwrap();
    session.start().unwrap();
    EncoderWorker::new(session)
}

/// Runs a scheduler through `n` capture requests, the callback of request
/// `k` (from 1) answered by `result(k)`, then stops it; returns every message.
fn record(n: u64, result: impl Fn(u64) -> Option<Vec<u8>>) -> Vec<StreamMessage> {
    let mut s = CaptureScheduler::new(&FrameRate::from_fps(30).unwrap(), 0, None);
    s.mark_loaded();
    let mut msgs = Vec::new();
    let mut now = 0u64;
    for k in 1..=n {
        // Uneven tick spacing stands for capture latency and jitter.
        now += 33_333_333 + (k * 1_234_567) % 9_000_000;
        assert!(s.tick(now));
        msgs.extend(s.on_capture(result(k)));
    }
    msgs.extend(s.stop());
    msgs
}

/// Feeds every message to the worker; returns the pts of each encoded frame
/// and how many times the session was finalized.
fn encode_all(w: &mut EncoderWorker, msgs: Vec<StreamMessage>) -> (Vec<u64>, usize) {
    let mut pts = Vec::new();
    let mut finishes = 0;
    for m in msgs {
        match w.handle(m) {
            WorkerAction::Encode { frame, timing } => {
                assert_eq!((frame.width(), frame.height()), (WIDTH, HEIGHT));
                assert_eq!(timing.duration_ns, 33_333_333);
                w.on_pushed(timing, FlowOutcome::Accepted).unwrap();
                pts.push(timing.pts_ns);
            }
            WorkerAction::Dropped(_) => {}
            WorkerAction::Finish => finishes += 1,
            WorkerAction::Fail(e) => panic!("session failed: {:?}", e),
        }
    }
    (pts, finishes)
}

#[test]
fn five_frames_at_thirty_fps() {
    let msgs = record(5, |_| Some(png(WIDTH, HEIGHT)));
    let mut w = worker();
    let (pts, finishes) = encode_all(&mut w, msgs);
    assert_eq!(pts, vec![0, 33_333_333, 66_666_667, 100_000_000, 133_333_333]);
    assert_eq!(finishes, 1);
    assert_eq!(w.session().phase(), Phase::Finalized);
}

#[test]
fn failed_second_capture_does_not_shift_timestamps() {
    let msgs = record(5, |k| if k == 2 { None } else { Some(png(WIDTH, HEIGHT)) });
    let (pts, finishes) = encode_all(&mut worker(), msgs);
    assert_eq!(pts, vec![0, 33_333_333, 66_666_667, 100_000_000]);
    assert_eq!(finishes, 1);
}

#[test]
fn empty_payloads_are_dropped_without_renumbering() {
    let mut w = worker();
    let mut encoded = Vec::new();
    let mut dropped = Vec::new();
    for i in 0..10u64 {
        let payload = if i == 3 || i == 7 { Vec::new() } else { png(WIDTH, HEIGHT) };
        match w.handle(StreamMessage::Frame(CapturedFrame { sequence: i, payload })) {
            WorkerAction::Encode { timing, .. } => {
                w.on_pushed(timing, FlowOutcome::Accepted).unwrap();
                encoded.push(timing.pts_ns);
            }
            WorkerAction::Dropped(e) => {
                assert_eq!(e, DecodeError::Empty);
                dropped.push(i);
            }
            _ => panic!("unexpected action"),
        }
    }
    assert_eq!(dropped, vec![3, 7]);
    let expected: Vec<u64> = [0u64, 1, 2, 4, 5, 6, 8, 9]
        .iter()
        .map(|&i| webview_recorder::timestamp::frame_timestamp_ns(i, &FrameRate::from_fps(30).unwrap()).unwrap())
        .collect();
    assert_eq!(encoded.len(), 8);
    assert_eq!(encoded, expected);
}

#[test]
fn mismatched_frame_is_dropped_and_recording_continues() {
    let mut w = worker();
    let a = w.handle(StreamMessage::Frame(CapturedFrame { sequence: 0, payload: png(8, 8) }));
    assert!(matches!(a, WorkerAction::Dropped(DecodeError::DimensionMismatch { width: 8, height: 8 })));
    let b = w.handle(StreamMessage::Frame(CapturedFrame { sequence: 1, payload: vec![0, 1, 2] }));
    assert!(matches!(b, WorkerAction::Dropped(DecodeError::Malformed)));
    let c = w.handle(StreamMessage::Frame(CapturedFrame { sequence: 2, payload: png(WIDTH, HEIGHT) }));
    assert!(matches!(c, WorkerAction::Encode { timing, .. } if timing.pts_ns == 66_666_667));
}

#[test]
fn shutdown_with_capture_in_flight_finishes_once() {
    let mut s = CaptureScheduler::new(&FrameRate::from_fps(30).unwrap(), 0, None);
    s.mark_loaded();
    assert!(s.tick(40_000_000));
    let mut msgs = s.stop();
    assert!(msgs.is_empty());
    msgs.extend(s.on_capture(Some(png(WIDTH, HEIGHT))));
    assert!(matches!(msgs.last(), Some(StreamMessage::EndOfStream)));
    let (pts, finishes) = encode_all(&mut worker(), msgs);
    assert_eq!(pts, vec![0]);
    assert_eq!(finishes, 1);
}

#[test]
fn second_end_of_stream_is_a_programmer_error() {
    let mut w = worker();
    assert!(matches!(w.handle(StreamMessage::EndOfStream), WorkerAction::Finish));
    assert!(matches!(
        w.handle(StreamMessage::EndOfStream),
        WorkerAction::Fail(EncodeError::AlreadyFinalized)
    ));
    assert!(matches!(
        w.handle(StreamMessage::Frame(CapturedFrame { sequence: 5, payload: png(WIDTH, HEIGHT) })),
        WorkerAction::Fail(EncodeError::PushAfterFinalize)
    ));
}

#[test]
fn frame_before_start_fails() {
    let session = PngVideoEncoder::new(WIDTH, HEIGHT, FrameRate::from_fps(30).unwrap()).unwrap();
    let mut w = EncoderWorker::new(session);
    assert!(matches!(
        w.handle(StreamMessage::Frame(CapturedFrame { sequence: 0, payload: png(WIDTH, HEIGHT) })),
        WorkerAction::Fail(EncodeError::NotStarted)
    ));
    let session = w.into_session();
    assert_eq!(session.phase(), Phase::Uninitialized);
}

#[test]
fn out_of_order_frame_fails_the_session() {
    let mut w = worker();
    let a = w.handle(StreamMessage::Frame(CapturedFrame { sequence: 3, payload: png(WIDTH, HEIGHT) }));
    match a {
        WorkerAction::Encode { timing, .. } => w.on_pushed(timing, FlowOutcome::Accepted).unwrap(),
        _ => panic!("frame not encoded"),
    }
    let b = w.handle(StreamMessage::Frame(CapturedFrame { sequence: 1, payload: png(WIDTH, HEIGHT) }));
    assert!(matches!(
        b,
        WorkerAction::Fail(EncodeError::NonMonotonicTimestamp { previous: 100_000_000, attempted: 33_333_333 })
    ));
}

#[test]
fn busy_backend_frame_is_pushed_again() {
    let mut w = worker();
    let timing = match w.handle(StreamMessage::Frame(CapturedFrame { sequence: 0, payload: png(WIDTH, HEIGHT) })) {
        WorkerAction::Encode { timing, .. } => timing,
        _ => panic!("frame not encoded"),
    };
    let busy = w.on_pushed(timing, FlowOutcome::Flushing);
    assert_eq!(busy, Err(EncodeError::PipelineBusy));
    assert!(busy.unwrap_err().is_retryable());
    assert_eq!(w.session().last_pts(), None);
    assert_eq!(w.on_pushed(timing, FlowOutcome::Accepted), Ok(()));
    assert_eq!(w.session().last_pts(), Some(0));
    assert_eq!(
        w.on_pushed(timing, FlowOutcome::Accepted),
        Err(EncodeError::NonMonotonicTimestamp { previous: 0, attempted: 0 })
    );
}
