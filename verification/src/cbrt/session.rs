use vstd::prelude::*;
use crate::cbrt::scan::{flag_ts, FrameHeader};

verus! {

/// The flag profile, datatype and channel count that define a session.
#[derive(Debug, Clone, Copy, PartialEq, Eq, Structural)]
pub struct SessionProfile {
    /// High nibble of the flags byte.
    pub flag_bits: u8,
    pub datatype: u8,
    pub channels: u8,
}

/// Per-session decode state: one per logical CBRT session.
#[derive(Debug, Clone, Copy)]
pub struct SessionState {
    pub profile: Option<SessionProfile>,
    pub last_seq: Option<u8>,
    pub last_ts_raw: Option<u32>,
    pub wrap_count: u64,
    pub frame_count: u64,
    /// Host-to-device clock offset, `min(arrival - ts)` over the session.
    pub ts_anchor_us: Option<i64>,
    /// Anchor of the previous frame that had no period field.
    pub last_anchor_us: Option<u64>,
    /// Sample count of that frame.
    pub last_sample_count: Option<usize>,
    /// The smoothed inferred period, kept as the bit pattern of an IEEE double by the
    /// floating-point part of the pipeline; the session logic only resets it.
    pub period_ema_bits: Option<u64>,
}

/// A session with the given profile and nothing else known.
pub open spec fn fresh_session(profile: Option<SessionProfile>) -> SessionState {
    SessionState {
        profile,
        last_seq: None,
        last_ts_raw: None,
        wrap_count: 0,
        frame_count: 0,
        ts_anchor_us: None,
        last_anchor_us: None,
        last_sample_count: None,
        period_ema_bits: None,
    }
}

impl SessionState {
    /// An empty session.
    pub fn new() -> (s: SessionState)
        ensures
            s == fresh_session(None),
    {
        SessionState {
            profile: None,
            last_seq: None,
            last_ts_raw: None,
            wrap_count: 0,
            frame_count: 0,
            ts_anchor_us: None,
            last_anchor_us: None,
            last_sample_count: None,
            period_ema_bits: None,
        }
    }

    /// Forgets everything: the next valid frame starts a new session.
    pub fn reset(&mut self)
        ensures
            *final(self) == fresh_session(None),
    {
        *self = SessionState::new();
    }
}

/// Sequence-number findings of a frame relative to the previous one.
#[derive(Debug, Clone, Copy, PartialEq, Eq)]
pub enum SeqEvent {
    Duplicate,
    /// This many sequence numbers were skipped.
    Dropped(u8),
}

/// The profile a frame header defines.
pub open spec fn header_profile(h: FrameHeader) -> SessionProfile {
    SessionProfile { flag_bits: h.flags & 0xF0, datatype: h.datatype, channels: h.channels }
}

/// Profile step: a frame whose profile differs from the session's (or the first frame)
/// starts a new session.
pub open spec fn profile_step(s: SessionState, p: SessionProfile) -> (SessionState, bool) {
    if s.profile != Some(p) {
        (fresh_session(Some(p)), true)
    } else {
        (s, false)
    }
}

/// Wrap step: a raw timestamp that falls by more than half the 32-bit range counts a wrap
/// (saturating); the full timestamp carries the wrap count in its high 32 bits.
pub open spec fn wrap_step(s: SessionState, ts_raw: Option<u32>) -> (SessionState, Option<u64>) {
    match ts_raw {
        None => (s, None),
        Some(raw) => {
            let wc = match s.last_ts_raw {
                Some(prev) => if raw < prev && prev - raw > 0x8000_0000u32 {
                    if s.wrap_count == u64::MAX { s.wrap_count } else { (s.wrap_count + 1) as u64 }
                } else {
                    s.wrap_count
                },
                None => s.wrap_count,
            };
            (SessionState { wrap_count: wc, last_ts_raw: Some(raw), ..s }, Some((wc << 32u64) | (raw as u64)))
        },
    }
}

/// Sequence step: against the previous sequence number (mod 256), no advance is a
/// duplicate and an advance by more than one reports the skipped count.
pub open spec fn seq_step(s: SessionState, seq: Option<u8>) -> (SessionState, Option<SeqEvent>) {
    let ev = match (seq, s.last_seq) {
        (Some(c), Some(l)) => {
            let delta = ((c as int - l as int) % 256) as u8;
            if delta == 0 {
                Some(SeqEvent::Duplicate)
            } else if delta > 1 {
                Some(SeqEvent::Dropped((delta - 1) as u8))
            } else {
                None
            }
        },
        _ => None,
    };
    let s2 = match seq {
        Some(c) => SessionState { last_seq: Some(c), ..s },
        None => s,
    };
    (s2, ev)
}

/// `a - b` clamped to the `i64` range.
pub open spec fn sat_sub_i64(a: i64, b: i64) -> i64 {
    let d = a as int - b as int;
    if d > i64::MAX { i64::MAX } else if d < i64::MIN { i64::MIN } else { d as i64 }
}

/// `a + b` clamped to the `i64` range.
pub open spec fn sat_add_i64(a: i64, b: i64) -> i64 {
    let d = a as int + b as int;
    if d > i64::MAX { i64::MAX } else if d < i64::MIN { i64::MIN } else { d as i64 }
}

/// Anchor step: with a device timestamp, the clock offset ratchets down to
/// `min(arrival - ts)` and the frame's base time is `ts + offset` (at least 0); without one
/// the base is the arrival time.
pub open spec fn anchor_step(s: SessionState, full_ts: Option<u64>, arrival_us: u64) -> (SessionState, u64) {
    match full_ts {
        None => (s, arrival_us),
        Some(ts) => {
            let candidate = sat_sub_i64(arrival_us as i64, ts as i64);
            let anchor = match s.ts_anchor_us {
                Some(prev) => if prev <= candidate { prev } else { candidate },
                None => candidate,
            };
            let base = sat_add_i64(ts as i64, anchor);
            (SessionState { ts_anchor_us: Some(anchor), ..s }, if base < 0 { 0u64 } else { base as u64 })
        },
    }
}

/// A measured gap between consecutive frame anchors and the number of samples it spans.
#[derive(Debug, Clone, Copy, PartialEq, Eq)]
pub struct PeriodSample {
    pub delta_us: u64,
    pub span: usize,
}

/// Inference step for frames without a usable period field: when the anchor moved forward
/// since the last such frame, the gap spans the previous frame's samples (device-timed
/// frames, timed from their first sample) or this frame's (host-timed frames, whose samples
/// arrived within the gap); a non-empty span yields a measurement. The anchor and count are remembered.
pub open spec fn infer_step(s: SessionState, has_ts: bool, anchor_us: u64, sample_count: usize) -> (SessionState, Option<PeriodSample>) {
    let sample = match s.last_anchor_us {
        Some(last) => if anchor_us > last {
            let span = if has_ts {
                match s.last_sample_count { Some(c) => c, None => 0usize }
            } else {
                sample_count
            };
            if span > 0 {
                Some(PeriodSample { delta_us: (anchor_us - last) as u64, span })
            } else {
                None
            }
        } else {
            None
        },
        None => None,
    };
    (SessionState { last_anchor_us: Some(anchor_us), last_sample_count: Some(sample_count), ..s }, sample)
}

/// Samples per channel in a payload.
pub open spec fn sample_count_of(payload_len: int, dt: u8, channels: u8) -> int {
    if channels == 0 {
        0
    } else if dt == 0xE {
        (payload_len * 8) / (channels as int)
    } else {
        match crate::cbrt::scan::spec_bytes_per_datatype(dt) {
            Some(b) => payload_len / ((channels as int) * (b as int)),
            None => 0,
        }
    }
}

/// Where a frame's sample spacing comes from.
#[derive(Debug, Clone, Copy, PartialEq, Eq)]
pub enum PeriodSource {
    /// The frame's own non-zero period field.
    Explicit(u16),
    /// No usable period field: the spacing is inferred across frames, from this measurement
    /// (if any) and the smoothed estimate in the session.
    Inferred(Option<PeriodSample>),
}

/// Everything the session logic learns from one valid frame.
#[derive(Debug, Clone, Copy, PartialEq, Eq)]
pub struct FrameFacts {
    pub session_start: bool,
    pub full_ts_us: Option<u64>,
    pub seq_event: Option<SeqEvent>,
    /// The first sample's time: device time plus the session's clock offset for device-timed
    /// frames, the arrival time for host-timed ones.
    pub base_us: u64,
    pub sample_count: usize,
    pub period: PeriodSource,
}

/// The whole session transition for a valid frame arriving at `arrival_us`.
pub open spec fn session_step(s: SessionState, h: FrameHeader, arrival_us: u64) -> (SessionState, FrameFacts) {
    let (s1, start) = profile_step(s, header_profile(h));
    let (s2, full_ts) = wrap_step(s1, h.ts_raw);
    let (s3, ev) = seq_step(s2, h.seq);
    let (s4, base) = anchor_step(s3, full_ts, arrival_us);
    let s5 = SessionState {
        frame_count: if s4.frame_count == u64::MAX { s4.frame_count } else { (s4.frame_count + 1) as u64 },
        ..s4
    };
    let count = sample_count_of(h.payload_len as int, h.datatype, h.channels) as usize;
    let has_ts = flag_ts(h.flags);
    let explicit = match h.period_us { Some(p) => p > 0, None => false };
    let (s6, period) = if explicit {
        (s5, PeriodSource::Explicit(h.period_us.unwrap()))
    } else {
        let (s6, sample) = infer_step(s5, has_ts, base, count);
        (s6, PeriodSource::Inferred(sample))
    };
    (s6, FrameFacts {
        session_start: start,
        full_ts_us: full_ts,
        seq_event: ev,
        base_us: base,
        sample_count: count,
        period,
    })
}

fn sub_sat_i64(a: i64, b: i64) -> (r: i64)
    ensures
        r == sat_sub_i64(a, b),
{
    let d = a as i128 - b as i128;
    if d > i64::MAX as i128 { i64::MAX } else if d < i64::MIN as i128 { i64::MIN } else { d as i64 }
}

fn add_sat_i64(a: i64, b: i64) -> (r: i64)
    ensures
        r == sat_add_i64(a, b),
{
    let d = a as i128 + b as i128;
    if d > i64::MAX as i128 { i64::MAX } else if d < i64::MIN as i128 { i64::MIN } else { d as i64 }
}

pub proof fn lemma_sample_count_range(payload_len: int, dt: u8, channels: u8)
    requires
        0 <= payload_len <= 0xFFFF,
    ensures
        0 <= sample_count_of(payload_len, dt, channels) <= 8 * 0xFFFF,
{
    if channels != 0 {
        let c = channels as int;
        if dt == 0xE {
            assert(0 <= (payload_len * 8) / c <= payload_len * 8) by (nonlinear_arith)
                requires
                    0 <= payload_len,
                    1 <= c,
            ;
        } else {
            match crate::cbrt::scan::spec_bytes_per_datatype(dt) {
                Some(b) => {
                    let d = c * (b as int);
                    assert(1 <= d) by (nonlinear_arith)
                        requires
                            1 <= c,
                            1 <= b,
                            d == c * (b as int),
                    ;
                    assert(0 <= payload_len / d <= payload_len) by (nonlinear_arith)
                        requires
                            0 <= payload_len,
                            1 <= d,
                    ;
                },
                None => {},
            }
        }
    }
}

/// Computes samples per channel.
pub fn compute_sample_count(payload_len: usize, dt: u8, channels: u8) -> (n: usize)
    requires
        payload_len <= 0xFFFF,
    ensures
        n == sample_count_of(payload_len as int, dt, channels),
{
    if channels == 0 {
        return 0;
    }
    let chans = channels as usize;
    if dt == 0xE {
        (payload_len * 8) / chans
    } else {
        match crate::cbrt::scan::bytes_per_datatype(dt) {
            Some(b) => {
                assert(1 <= chans * b <= 255 * 8) by (nonlinear_arith)
                    requires
                        1 <= b <= 8,
                        1 <= chans <= 255,
                ;
                payload_len / (chans * b)
            },
            None => 0,
        }
    }
}

/// Applies the session transition for a valid frame.
pub fn apply_session_step(state: &mut SessionState, h: FrameHeader, arrival_us: u64) -> (facts: FrameFacts)
    requires
        h.payload_len <= 0xFFFF,
    ensures
        (*final(state), facts) == session_step(*old(state), h, arrival_us),
{
    let new_profile = SessionProfile { flag_bits: h.flags & 0xF0, datatype: h.datatype, channels: h.channels };
    let start = match state.profile {
        None => true,
        Some(p) => p != new_profile,
    };
    if start {
        *state = SessionState::new();
        state.profile = Some(new_profile);
    }
    let full_ts = match h.ts_raw {
        None => None,
        Some(raw) => {
            match state.last_ts_raw {
                Some(prev) => {
                    if raw < prev && prev - raw > 0x8000_0000u32 {
                        state.wrap_count = state.wrap_count.saturating_add(1);
                    }
                },
                None => {},
            }
            state.last_ts_raw = Some(raw);
            Some((state.wrap_count << 32u64) | (raw as u64))
        },
    };
    let ev = match (h.seq, state.last_seq) {
        (Some(c), Some(l)) => {
            let delta = c.wrapping_sub(l);
            if delta == 0 {
                Some(SeqEvent::Duplicate)
            } else if delta > 1 {
                Some(SeqEvent::Dropped(delta - 1))
            } else {
                None
            }
        },
        _ => None,
    };
    match h.seq {
        Some(c) => { state.last_seq = Some(c); },
        None => {},
    }
    let base = match full_ts {
        None => arrival_us,
        Some(ts) => {
            let candidate = sub_sat_i64(arrival_us as i64, ts as i64);
            let anchor = match state.ts_anchor_us {
                Some(prev) => if prev <= candidate { prev } else { candidate },
                None => candidate,
            };
            state.ts_anchor_us = Some(anchor);
            let b = add_sat_i64(ts as i64, anchor);
            if b < 0 { 0u64 } else { b as u64 }
        },
    };
    state.frame_count = state.frame_count.saturating_add(1);
    let count = compute_sample_count(h.payload_len, h.datatype, h.channels);
    let has_ts = h.flags & 0x80 != 0;
    let explicit = match h.period_us { Some(p) => p > 0, None => false };
    let period = if explicit {
        PeriodSource::Explicit(h.period_us.unwrap())
    } else {
        let sample = match state.last_anchor_us {
            Some(last) => if base > last {
                let span = if has_ts {
                    match state.last_sample_count { Some(c) => c, None => 0 }
                } else {
                    count
                };
                if span > 0 { Some(PeriodSample { delta_us: base - last, span }) } else { None }
            } else {
                None
            },
            None => None,
        };
        state.last_anchor_us = Some(base);
        state.last_sample_count = Some(count);
        PeriodSource::Inferred(sample)
    };
    FrameFacts {
        session_start: start,
        full_ts_us: full_ts,
        seq_event: ev,
        base_us: base,
        sample_count: count,
        period,
    }
}

} // verus!
