use webview_recorder::timestamp::{frame_duration_ns, frame_timestamp_ns, FrameRate, TimestampError};

fn rate(numer: u32, denom: u32) -> FrameRate {
    FrameRate::new(numer, denom).expect("valid rate")
}

#[test]
fn thirty_fps_timestamps_round_to_nearest_nanosecond() {
    let r = rate(30, 1);
    let got: Vec<u64> = (0..5u64).map(|i| frame_timestamp_ns(i, &r).unwrap()).collect();
    assert_eq!(got, vec![0, 33_333_333, 66_666_667, 100_000_000, 133_333_333]);
}

#[test]
fn fractional_rate_timestamps() {
    // 30000/1001 frames per second: one frame every 33366666.67 ns.
    let r = rate(30_000, 1_001);
    assert_eq!(frame_timestamp_ns(1, &r), Ok(33_366_667));
    assert_eq!(frame_timestamp_ns(3, &r), Ok(100_100_000));
}

#[test]
fn timestamps_do_not_drift_over_many_frames() {
    let r = rate(30, 1);
    assert_eq!(frame_timestamp_ns(30 * 3600, &r), Ok(3_600_000_000_000));
}

#[test]
fn timestamp_overflow_is_reported() {
    let r = rate(1, 1);
    assert_eq!(frame_timestamp_ns(u64::MAX, &r), Err(TimestampError::Overflow));
    assert_eq!(frame_timestamp_ns(18_446_744_073, &r), Ok(18_446_744_073_000_000_000));
    assert_eq!(frame_timestamp_ns(18_446_744_074, &r), Err(TimestampError::Overflow));
}

#[test]
fn frame_duration_at_thirty_fps() {
    assert_eq!(frame_duration_ns(&rate(30, 1)), 33_333_333);
    assert_eq!(frame_duration_ns(&rate(1, 2)), 2_000_000_000);
}

#[test]
fn invalid_rates_are_refused() {
    assert!(FrameRate::new(0, 1).is_none());
    assert!(FrameRate::new(30, 0).is_none());
    assert!(FrameRate::new(0x8000_0000, 1).is_none());
    assert!(FrameRate::new(2_000_000_000, 1).is_none());
    assert!(FrameRate::new(1_000_000_000, 1).is_some());
    assert!(FrameRate::from_fps(0).is_none());
    let r = FrameRate::from_fps(25).unwrap();
    assert_eq!((r.numer(), r.denom()), (25, 1));
}

#[test]
fn timestamps_strictly_increase() {
    let r = rate(1_000_000_000, 1);
    let mut previous = frame_timestamp_ns(0, &r).unwrap();
    for i in 1..100u64 {
        let t = frame_timestamp_ns(i, &r).unwrap();
        assert!(t > previous);
        previous = t;
    }
}
