use webview_recorder::session::{
    classify_push_outcome, drain_step, BusEvent, DrainStep, EncodeError, EncoderInitError,
    FlowOutcome, Phase, PngVideoEncoder,
};
use webview_recorder::timestamp::FrameRate;

fn started() -> PngVideoEncoder {
    let mut enc = PngVideoEncoder::new(640, 480, FrameRate::from_fps(30).unwrap()).unwrap();
    enc.start().unwrap();
    enc
}

#[test]
fn new_session_checks_dimensions() {
    let r = FrameRate::from_fps(30).unwrap();
    assert!(matches!(PngVideoEncoder::new(0, 480, r), Err(EncoderInitError::InvalidDimensions)));
    assert!(matches!(PngVideoEncoder::new(640, 0, r), Err(EncoderInitError::InvalidDimensions)));
    assert!(matches!(
        PngVideoEncoder::new(0x8000_0000, 480, r),
        Err(EncoderInitError::InvalidDimensions)
    ));
    let enc = PngVideoEncoder::new(1920, 1080, r).unwrap();
    assert_eq!((enc.width(), enc.height()), (1920, 1080));
    assert_eq!(enc.phase(), Phase::Uninitialized);
    assert_eq!(enc.last_pts(), None);
}

#[test]
fn start_happens_once() {
    let mut enc = started();
    assert_eq!(enc.phase(), Phase::Started);
    assert_eq!(enc.start(), Err(EncodeError::AlreadyStarted));
    enc.finish().unwrap();
    assert_eq!(enc.start(), Err(EncodeError::AlreadyFinalized));
}

#[test]
fn push_before_start_is_refused() {
    let mut enc = PngVideoEncoder::new(640, 480, FrameRate::from_fps(30).unwrap()).unwrap();
    assert_eq!(enc.timing_for_frame(0), Err(EncodeError::NotStarted));
    assert_eq!(
        enc.push_png_buffer_with_timestamp(0, FlowOutcome::Accepted),
        Err(EncodeError::NotStarted)
    );
    assert_eq!(enc.push_png_buffer(), Err(EncodeError::NotStarted));
    assert_eq!(enc.finish(), Err(EncodeError::NotStarted));
}

#[test]
fn push_frame_stamps_sequence_timestamps() {
    let mut enc = started();
    let t0 = enc.timing_for_frame(0).unwrap();
    assert_eq!((t0.pts_ns, t0.duration_ns), (0, 33_333_333));
    assert_eq!(enc.last_pts(), None);
    enc.push_png_buffer_with_timestamp(t0.pts_ns, FlowOutcome::Accepted).unwrap();
    let t2 = enc.timing_for_frame(2).unwrap();
    assert_eq!((t2.pts_ns, t2.duration_ns), (66_666_667, 33_333_333));
    enc.push_png_buffer_with_timestamp(t2.pts_ns, FlowOutcome::Accepted).unwrap();
    assert_eq!(enc.last_pts(), Some(66_666_667));
}

#[test]
fn non_monotonic_timestamp_is_refused() {
    let mut enc = started();
    enc.push_png_buffer_with_timestamp(100, FlowOutcome::Accepted).unwrap();
    assert_eq!(
        enc.push_png_buffer_with_timestamp(100, FlowOutcome::Accepted),
        Err(EncodeError::NonMonotonicTimestamp { previous: 100, attempted: 100 })
    );
    assert_eq!(
        enc.timing_for_timestamp(100),
        Err(EncodeError::NonMonotonicTimestamp { previous: 100, attempted: 100 })
    );
    assert_eq!(
        enc.timing_for_frame(0),
        Err(EncodeError::NonMonotonicTimestamp { previous: 100, attempted: 0 })
    );
    assert_eq!(enc.last_pts(), Some(100));
    assert!(enc.push_png_buffer_with_timestamp(101, FlowOutcome::Accepted).is_ok());
}

#[test]
fn push_frame_overflow_is_reported() {
    let mut enc = started();
    assert_eq!(enc.timing_for_frame(u64::MAX), Err(EncodeError::TimestampOverflow));
    assert_eq!(enc.last_pts(), None);
}

#[test]
fn finalize_twice_reports_already_finalized() {
    let mut enc = started();
    enc.push_png_buffer_with_timestamp(0, FlowOutcome::Accepted).unwrap();
    assert_eq!(enc.finish(), Ok(()));
    assert_eq!(enc.finish(), Err(EncodeError::AlreadyFinalized));
    assert_eq!(enc.phase(), Phase::Finalized);
    assert_eq!(enc.last_pts(), Some(0));
}

#[test]
fn push_after_finalize_is_refused() {
    let mut enc = started();
    enc.finish().unwrap();
    assert_eq!(enc.timing_for_frame(1), Err(EncodeError::PushAfterFinalize));
    assert_eq!(
        enc.push_png_buffer_with_timestamp(1, FlowOutcome::Accepted),
        Err(EncodeError::PushAfterFinalize)
    );
    assert_eq!(enc.push_png_buffer(), Err(EncodeError::PushAfterFinalize));
}

#[test]
fn untimed_push_only_checks_phase() {
    let enc = started();
    assert_eq!(enc.push_png_buffer(), Ok(()));
}

#[test]
fn backend_answers_are_classified() {
    assert_eq!(classify_push_outcome(FlowOutcome::Accepted), Ok(()));
    assert_eq!(classify_push_outcome(FlowOutcome::Flushing), Err(EncodeError::PipelineBusy));
    assert_eq!(classify_push_outcome(FlowOutcome::EndOfStream), Err(EncodeError::BackendEndOfStream));
    assert_eq!(classify_push_outcome(FlowOutcome::Failed), Err(EncodeError::BackendFailure));
    assert!(EncodeError::PipelineBusy.is_retryable());
    assert!(!EncodeError::BackendEndOfStream.is_retryable());
    assert!(!EncodeError::AlreadyFinalized.is_retryable());
}

#[test]
fn drain_stops_at_end_of_stream_or_error() {
    assert_eq!(drain_step(BusEvent::Other), DrainStep::Continue);
    assert_eq!(drain_step(BusEvent::EndOfStream), DrainStep::Completed);
    assert_eq!(drain_step(BusEvent::Error), DrainStep::Failed);
}

#[test]
fn only_an_accepted_push_records_its_timestamp() {
    let mut enc = started();
    assert_eq!(
        enc.push_png_buffer_with_timestamp(0, FlowOutcome::Flushing),
        Err(EncodeError::PipelineBusy)
    );
    assert_eq!(enc.last_pts(), None);
    assert_eq!(
        enc.push_png_buffer_with_timestamp(0, FlowOutcome::EndOfStream),
        Err(EncodeError::BackendEndOfStream)
    );
    assert_eq!(
        enc.push_png_buffer_with_timestamp(0, FlowOutcome::Failed),
        Err(EncodeError::BackendFailure)
    );
    assert_eq!(enc.last_pts(), None);
    assert_eq!(enc.push_png_buffer_with_timestamp(0, FlowOutcome::Accepted), Ok(()));
    assert_eq!(enc.last_pts(), Some(0));
}
