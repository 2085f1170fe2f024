//! Presentation timestamps derived from a frame's sequence number and the
//! target frame rate, in exact rational arithmetic.
use vstd::prelude::*;

verus! {

/// Nanoseconds in one second.
pub const NANOS_PER_SECOND: u64 = 1_000_000_000;

/// Largest numerator or denominator a frame rate may have (the range of a
/// signed 32-bit fraction term).
pub const MAX_RATE_TERM: u32 = 0x7fff_ffff;

/// A rate in frames per second is `numer / denom`: both terms positive and
/// within a signed 32-bit fraction, and at most one frame per nanosecond.
pub open spec fn valid_rate(numer: nat, denom: nat) -> bool {
    &&& 0 < numer <= MAX_RATE_TERM
    &&& 0 < denom <= MAX_RATE_TERM
    &&& numer <= denom * NANOS_PER_SECOND
}

/// The presentation time of frame `sequence`, in nanoseconds:
/// `sequence * denom / numer` seconds, rounded to the nearest nanosecond.
pub open spec fn pts_of(sequence: nat, numer: nat, denom: nat) -> int {
    (sequence * denom * NANOS_PER_SECOND + numer / 2) / (numer as int)
}

/// Why a timestamp could not be produced.
#[derive(Clone, Copy, Debug, PartialEq, Eq, Structural)]
pub enum TimestampError {
    /// The timestamp does not fit in 64-bit nanoseconds.
    Overflow,
}

/// A target frame rate, `numer / denom` frames per second.
#[derive(Clone, Copy, Debug, PartialEq, Eq)]
pub struct FrameRate {
    numer: u32,
    denom: u32,
}

impl FrameRate {
    #[verifier::type_invariant]
    spec fn inv(self) -> bool {
        valid_rate(self.numer as nat, self.denom as nat)
    }

    pub closed spec fn spec_numer(self) -> nat {
        self.numer as nat
    }

    pub closed spec fn spec_denom(self) -> nat {
        self.denom as nat
    }

    /// The rate `numer / denom`, when it is valid.
    pub fn new(numer: u32, denom: u32) -> (r: Option<FrameRate>)
        ensures
            r is Some <==> valid_rate(numer as nat, denom as nat),
            r matches Some(rate) ==> rate.spec_numer() == numer && rate.spec_denom() == denom,
    {
        if 0 < numer && numer <= MAX_RATE_TERM && 0 < denom && denom <= MAX_RATE_TERM
            && numer as u64 <= denom as u64 * NANOS_PER_SECOND {
            Some(FrameRate { numer, denom })
        } else {
            None
        }
    }

    /// The whole rate of `fps` frames per second.
    pub fn from_fps(fps: u16) -> (r: Option<FrameRate>)
        ensures
            r is Some <==> fps > 0,
            r matches Some(rate) ==> rate.spec_numer() == fps && rate.spec_denom() == 1,
    {
        FrameRate::new(fps as u32, 1)
    }

    pub fn numer(&self) -> (r: u32)
        ensures
            r == self.spec_numer(),
            valid_rate(self.spec_numer(), self.spec_denom()),
    {
        proof {
            use_type_invariant(self);
        }
        self.numer
    }

    pub fn denom(&self) -> (r: u32)
        ensures
            r == self.spec_denom(),
            valid_rate(self.spec_numer(), self.spec_denom()),
    {
        proof {
            use_type_invariant(self);
        }
        self.denom
    }
}

/// The presentation timestamp of frame `sequence` at `rate`, in nanoseconds;
/// `Overflow` exactly when it does not fit in a `u64`.
pub fn frame_timestamp_ns(sequence: u64, rate: &FrameRate) -> (r: Result<u64, TimestampError>)
    ensures
        valid_rate(rate.spec_numer(), rate.spec_denom()),
        match r {
            Ok(t) => t == pts_of(sequence as nat, rate.spec_numer(), rate.spec_denom()),
            Err(e) => e == TimestampError::Overflow && pts_of(
                sequence as nat,
                rate.spec_numer(),
                rate.spec_denom(),
            ) > u64::MAX,
        },
{
    let n = rate.numer();
    let d = rate.denom();
    let s = sequence as u128;
    let dd = d as u128;
    assert(s * dd <= 0xffff_ffff_ffff_ffffu128 * 0x7fff_ffffu128) by (nonlinear_arith)
        requires
            s <= 0xffff_ffff_ffff_ffffu128,
            dd <= 0x7fff_ffffu128,
    ;
    let sd: u128 = s * dd;
    assert(sd * 1_000_000_000u128 <= 0xffff_ffff_ffff_ffffu128 * 0x7fff_ffffu128
        * 1_000_000_000u128) by (nonlinear_arith)
        requires
            sd <= 0xffff_ffff_ffff_ffffu128 * 0x7fff_ffffu128,
    ;
    let scaled: u128 = sd * 1_000_000_000u128;
    let t: u128 = (scaled + (n / 2) as u128) / (n as u128);
    if t > u64::MAX as u128 {
        Err(TimestampError::Overflow)
    } else {
        Ok(t as u64)
    }
}

/// The duration of one frame at `rate`, in nanoseconds: the timestamp of
/// frame 1.
pub fn frame_duration_ns(rate: &FrameRate) -> (r: u64)
    ensures
        r == pts_of(1, rate.spec_numer(), rate.spec_denom()),
        r > 0,
{
    let n = rate.numer();
    let d = rate.denom();
    let scaled: u64 = d as u64 * NANOS_PER_SECOND;
    let r = (scaled + (n / 2) as u64) / (n as u64);
    assert(r > 0) by (nonlinear_arith)
        requires
            r == (scaled + n / 2) / (n as int),
            scaled == d * NANOS_PER_SECOND,
            0 < n <= d * NANOS_PER_SECOND,
    ;
    r
}

/// Later frames have strictly later timestamps.
pub proof fn lemma_pts_strictly_increasing(a: nat, b: nat, numer: nat, denom: nat)
    requires
        valid_rate(numer, denom),
        a < b,
    ensures
        pts_of(a, numer, denom) < pts_of(b, numer, denom),
{
    let x = a * denom * NANOS_PER_SECOND + numer / 2;
    let y = b * denom * NANOS_PER_SECOND + numer / 2;
    assert(y >= x + numer) by (nonlinear_arith)
        requires
            a < b,
            0 < numer <= denom * NANOS_PER_SECOND,
            0 < denom,
            x == a * denom * NANOS_PER_SECOND + numer / 2,
            y == b * denom * NANOS_PER_SECOND + numer / 2,
    ;
    assert(x / (numer as int) < y / (numer as int)) by (nonlinear_arith)
        requires
            y >= x + numer,
            x >= 0,
            numer > 0,
    ;
}

} // verus!
