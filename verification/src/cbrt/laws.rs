use vstd::prelude::*;
use crate::cbrt::codec::{decode_plan, is_sync_at, sync_from, DecodePlan};
use crate::cbrt::parser::{parse_ok, ParseOutcome};
use crate::cbrt::scan::{scan_frame, FrameHeader, FrameScan};
use crate::message::ValueType;
use crate::cbrt::session::{header_profile, sat_add_i64, sat_sub_i64, session_step, FrameFacts, SeqEvent, SessionState};

verus! {

/// A frame whose flags, datatype or channel count differ from the session's (or the first
/// frame) starts a new session: it is marked as the start, no sequence event is reported and
/// its timestamp has no wraps counted.
pub proof fn lemma_profile_change_starts_session(s: SessionState, h: FrameHeader, arrival_us: u64)
    requires
        s.profile != Some(header_profile(h)),
    ensures
        session_step(s, h, arrival_us).1.session_start,
        session_step(s, h, arrival_us).0.profile == Some(header_profile(h)),
        session_step(s, h, arrival_us).1.seq_event is None,
        h.ts_raw matches Some(raw) ==> session_step(s, h, arrival_us).1.full_ts_us == Some(raw as u64),
        session_step(s, h, arrival_us).0.frame_count == 1,
{
    match h.ts_raw {
        Some(raw) => {
            assert((0u64 << 32u64) | (raw as u64) == raw as u64) by (bit_vector);
        },
        None => {},
    }
}

/// A frame with the session's profile continues it.
pub proof fn lemma_same_profile_continues(s: SessionState, h: FrameHeader, arrival_us: u64)
    requires
        s.profile == Some(header_profile(h)),
    ensures
        !session_step(s, h, arrival_us).1.session_start,
        session_step(s, h, arrival_us).0.profile == s.profile,
        session_step(s, h, arrival_us).0.frame_count == if s.frame_count == u64::MAX { s.frame_count } else { (s.frame_count + 1) as u64 },
{
}

/// Within a session, sequence numbers are compared mod 256 with the previous one: no advance
/// is a duplicate, an advance of one is silent, a larger advance reports the skipped count.
pub proof fn lemma_sequence_gaps(s: SessionState, h: FrameHeader, arrival_us: u64, last: u8, cur: u8)
    requires
        s.profile == Some(header_profile(h)),
        s.last_seq == Some(last),
        h.seq == Some(cur),
    ensures
        ({
            let delta = ((cur as int - last as int) % 256) as u8;
            let ev = session_step(s, h, arrival_us).1.seq_event;
            &&& delta == 0 ==> ev == Some(SeqEvent::Duplicate)
            &&& delta == 1 ==> ev is None
            &&& delta > 1 ==> ev == Some(SeqEvent::Dropped((delta - 1) as u8))
        }),
        session_step(s, h, arrival_us).0.last_seq == Some(cur),
{
}

/// Within a session, a device timestamp that falls by more than half the 32-bit range counts
/// one more wrap, carried in the high 32 bits of the full timestamp.
pub proof fn lemma_timestamp_wrap(s: SessionState, h: FrameHeader, arrival_us: u64, prev: u32, raw: u32)
    requires
        s.profile == Some(header_profile(h)),
        s.last_ts_raw == Some(prev),
        h.ts_raw == Some(raw),
        raw < prev,
        prev - raw > 0x8000_0000u32,
        s.wrap_count < u64::MAX,
    ensures
        session_step(s, h, arrival_us).1.full_ts_us == Some((((s.wrap_count + 1) as u64) << 32u64) | (raw as u64)),
        session_step(s, h, arrival_us).0.wrap_count == s.wrap_count + 1,
{
}

/// A frame the decoder hands out sits right after the bytes it drops: the sync word is there
/// and the frame scans as valid at it.
pub proof fn lemma_decoded_frame_at_sync(b: Seq<u8>)
    ensures
        decode_plan(b) matches DecodePlan::Found { skip, sync, header } ==> {
            &&& skip + sync + 4 <= b.len()
            &&& is_sync_at(b.skip(skip as int), sync as int)
            &&& scan_frame(b.skip(skip as int), sync as int) == FrameScan::Frame(header)
        },
    decreases b.len(),
{
    if b.len() >= 4 {
        match sync_from(b, 0) {
            Some(p) => {
                crate::cbrt::codec::lemma_sync_from_bounds(b, 0);
                if 0 <= p && p + 4 <= b.len() {
                    match scan_frame(b, p) {
                        FrameScan::Reject => {
                            let rest = b.skip(p + 1);
                            lemma_decoded_frame_at_sync(rest);
                            match decode_plan(rest) {
                                DecodePlan::Found { skip, sync, header } => {
                                    assert(rest.skip(skip as int) =~= b.skip(p + 1 + skip));
                                },
                                _ => {},
                            }
                        },
                        _ => {
                            assert(b.skip(0) =~= b);
                        },
                    }
                }
            },
            None => {},
        }
    }
}

/// With no sync word in the buffer the decoder keeps only the last three bytes, where a sync
/// word split across reads may begin.
pub proof fn lemma_no_sync_keeps_tail(b: Seq<u8>)
    requires
        b.len() >= 4,
        forall|i: int| 0 <= i && i + 4 <= b.len() ==> !#[trigger] is_sync_at(b, i),
    ensures
        decode_plan(b) == (DecodePlan::Wait { drop: (b.len() - 3) as nat }),
{
    lemma_no_sync_none(b, 0);
}

proof fn lemma_no_sync_none(b: Seq<u8>, i: int)
    requires
        0 <= i,
        forall|j: int| 0 <= j && j + 4 <= b.len() ==> !#[trigger] is_sync_at(b, j),
    ensures
        sync_from(b, i) is None,
    decreases b.len() - i,
{
    if i + 4 <= b.len() {
        assert(!is_sync_at(b, i));
        lemma_no_sync_none(b, i + 1);
    }
}


/// The session state after the frames `hs`, arriving at `arrivals`, are decoded in order, and
/// the facts of each frame.
pub open spec fn run_frames(s: SessionState, hs: Seq<FrameHeader>, arrivals: Seq<u64>) -> (SessionState, Seq<FrameFacts>)
    decreases hs.len(),
{
    if hs.len() == 0 {
        (s, Seq::empty())
    } else {
        let n = hs.len() - 1;
        let prev = run_frames(s, hs.take(n), arrivals);
        let step = session_step(prev.0, hs[n], arrivals[n]);
        (step.0, prev.1.push(step.1))
    }
}

/// The clock offset a device-timed frame with full timestamp `ts` proposes: arrival minus ts.
pub open spec fn offset_candidate(ts: u64, arrival: u64) -> i64 {
    sat_sub_i64(arrival as i64, ts as i64)
}

/// The least offset proposed by the first `k` frames.
pub open spec fn least_offset(fs: Seq<FrameFacts>, arrivals: Seq<u64>, k: int) -> i64
    decreases k,
{
    let c = offset_candidate(fs[k - 1].full_ts_us.unwrap(), arrivals[k - 1]);
    if k <= 1 {
        c
    } else {
        let m = least_offset(fs, arrivals, k - 1);
        if m <= c { m } else { c }
    }
}

proof fn lemma_least_offset_prefix(fs: Seq<FrameFacts>, f: FrameFacts, arrivals: Seq<u64>, k: int)
    requires
        1 <= k <= fs.len(),
    ensures
        least_offset(fs.push(f), arrivals, k) == least_offset(fs, arrivals, k),
    decreases k,
{
    assert(fs.push(f)[k - 1] == fs[k - 1]);
    if k > 1 {
        lemma_least_offset_prefix(fs, f, arrivals, k - 1);
    }
}

/// Within a session of device-timed frames, the host/device clock offset is the running
/// minimum of arrival minus timestamp over the session so far, so it never grows: each frame's
/// base time (where its first sample sits, see `lemma_first_sample_at_base`) is its timestamp
/// plus that minimum (at least 0), and the session keeps the minimum over all of them.
pub proof fn lemma_anchor_running_min(s: SessionState, hs: Seq<FrameHeader>, arrivals: Seq<u64>)
    requires
        hs.len() > 0,
        arrivals.len() >= hs.len(),
        s.profile != Some(header_profile(hs[0])),
        forall|j: int| 0 <= j < hs.len() ==> header_profile(#[trigger] hs[j]) == header_profile(hs[0]),
        forall|j: int| 0 <= j < hs.len() ==> (#[trigger] hs[j]).ts_raw is Some,
    ensures
        ({
            let (st, fs) = run_frames(s, hs, arrivals);
            &&& fs.len() == hs.len()
            &&& st.profile == Some(header_profile(hs[0]))
            &&& st.ts_anchor_us == Some(least_offset(fs, arrivals, hs.len() as int))
            &&& forall|k: int| 0 <= k < hs.len() ==> (#[trigger] fs[k]).full_ts_us is Some && {
                let b = sat_add_i64(fs[k].full_ts_us.unwrap() as i64, least_offset(fs, arrivals, k + 1));
                fs[k].base_us == if b < 0 { 0u64 } else { b as u64 }
            }
            &&& forall|k: int| 1 <= k < hs.len() ==> #[trigger] least_offset(fs, arrivals, k + 1)
                <= least_offset(fs, arrivals, k)
        }),
    decreases hs.len(),
{
    let n = hs.len() - 1;
    let pre = hs.take(n as int);
    let prev = run_frames(s, pre, arrivals);
    let step = session_step(prev.0, hs[n as int], arrivals[n as int]);
    let fs = prev.1.push(step.1);
    assert(run_frames(s, hs, arrivals) == (step.0, fs));
    if n > 0 {
        assert forall|j: int| 0 <= j < pre.len() implies header_profile(#[trigger] pre[j]) == header_profile(pre[0])
            && pre[j].ts_raw is Some by {
            assert(pre[j] == hs[j]);
        }
        lemma_anchor_running_min(s, pre, arrivals);
        assert forall|k: int| 0 <= k < n implies (#[trigger] fs[k]).full_ts_us is Some && {
            let b = sat_add_i64(fs[k].full_ts_us.unwrap() as i64, least_offset(fs, arrivals, k + 1));
            fs[k].base_us == if b < 0 { 0u64 } else { b as u64 }
        } by {
            lemma_least_offset_prefix(prev.1, step.1, arrivals, k + 1);
            assert(fs[k] == prev.1[k]);
        }
        lemma_least_offset_prefix(prev.1, step.1, arrivals, n as int);
        assert(fs[n as int] == step.1);
        assert(pre[0] == hs[0]);
        assert(header_profile(hs[n as int]) == header_profile(hs[0]));
    } else {
        assert(fs[0] == step.1);
    }
}


/// A decoded frame's first sample sits at the frame's base time, on every channel: with a
/// period, sample 0 is zero periods after the base; without one every sample shares it.
pub proof fn lemma_first_sample_at_base(r: ParseOutcome, before: SessionState, after: SessionState, buf: Seq<u8>,
    p: int, arrival_us: u64)
    requires
        parse_ok(r, before, after, buf, p, arrival_us),
        r is Complete,
    ensures
        match (r, scan_frame(buf, p)) {
            (ParseOutcome::Complete { message, facts, .. }, FrameScan::Frame(h)) => facts.sample_count > 0 ==> forall|ch: int|
                0 <= ch < h.channels ==> (#[trigger] message.values@[ch]).timestamp == facts.base_us,
            _ => false,
        },
{
    match (r, scan_frame(buf, p)) {
        (ParseOutcome::Complete { message, facts, .. }, FrameScan::Frame(h)) => {
            if facts.sample_count > 0 {
                reveal(crate::cbrt::parser::frame_parts_ok);
                let n = h.channels as int;
                assert forall|ch: int| 0 <= ch < h.channels implies (#[trigger] message.values@[ch]).timestamp
                    == facts.base_us by {
                    assert(0 * n + ch == ch);
                    let v = message.values@[0 * n + ch];
                    assert(v.timestamp == crate::cbrt::samples::sample_ts(facts.base_us,
                        crate::cbrt::parser::explicit_period(facts), 0));
                }
            }
        },
        _ => {},
    }
}


/// A frame is marked as starting a session exactly when its flags, datatype or channel count
/// differ from the session's (or it is the first frame).
pub proof fn lemma_session_start_iff_profile_change(s: SessionState, h: FrameHeader, arrival_us: u64)
    ensures
        session_step(s, h, arrival_us).1.session_start <==> s.profile != Some(header_profile(h)),
{
}


/// A complete frame cut short: the bytes before its end scan as needing more.
proof fn lemma_prefix_needs_more(f: Seq<u8>, m: int)
    requires
        scan_frame(f, 0) matches FrameScan::Frame(h) && h.frame_end == f.len(),
        0 <= m < f.len(),
    ensures
        scan_frame(f.take(m), 0) == FrameScan::NeedMore,
{
    let x = f.take(m);
    assert forall|i: int| 0 <= i < m implies #[trigger] x[i] == f[i] by {}
    if m >= 6 {
        let flags = f[4];
        let c_seq = 6int;
        let c_ts = c_seq + if crate::cbrt::scan::flag_seq(flags) { 1int } else { 0int };
        let c_period = c_ts + if crate::cbrt::scan::flag_ts(flags) { 4int } else { 0int };
        let c_len = c_period + if crate::cbrt::scan::flag_period(flags) { 2int } else { 0int };
        if m >= c_len + 2 {
            assert(x[c_len] == f[c_len]);
            assert(x[c_len + 1] == f[c_len + 1]);
            assert(crate::cbrt::scan::le16(x, c_len) == crate::cbrt::scan::le16(f, c_len));
        }
    }
}

/// A frame split across reads decodes once the rest arrives: while only its first `m` bytes
/// are there, decoding waits and drops nothing (the buffer stays as it is); with the whole
/// frame there, it is found at the start.
pub proof fn lemma_split_frame_decodes(f: Seq<u8>, m: int)
    requires
        is_sync_at(f, 0),
        scan_frame(f, 0) matches FrameScan::Frame(h) && h.frame_end == f.len(),
        0 <= m < f.len(),
    ensures
        decode_plan(f.take(m)) == (DecodePlan::Wait { drop: 0 }),
        scan_frame(f, 0) matches FrameScan::Frame(h)
            && decode_plan(f) == (DecodePlan::Found { skip: 0, sync: 0, header: h }),
{
    let x = f.take(m);
    if m >= 4 {
        assert(x.subrange(0, 4) =~= f.subrange(0, 4));
        assert(is_sync_at(x, 0));
        assert(sync_from(x, 0) == Some(0int));
        lemma_prefix_needs_more(f, m);
    }
    assert(sync_from(f, 0) == Some(0int));
}


/// A decoded frame of an integer datatype (codes 0x0..0x7: u8, i8, u16, i16, u32, i32, u64,
/// i64) gives, for sample `s` of channel `ch`, a value of exactly that type whose bytes are the
/// sample's little-endian bytes in the frame's payload; e.g. an i32 sample FF FF FF FF is the
/// `Int32` value -1.
pub proof fn lemma_parsed_integer_samples(r: ParseOutcome, before: SessionState, after: SessionState, buf: Seq<u8>,
    p: int, arrival_us: u64)
    requires
        parse_ok(r, before, after, buf, p, arrival_us),
        r is Complete,
    ensures
        match (r, scan_frame(buf, p)) {
            (ParseOutcome::Complete { message, facts, .. }, FrameScan::Frame(h)) => h.datatype <= 0x7 ==> {
                let payload = buf.subrange(h.payload_start as int, h.payload_start + h.payload_len);
                let n = h.channels as int;
                let w: int = if h.datatype <= 0x1 { 1 } else if h.datatype <= 0x3 { 2 } else if h.datatype <= 0x5 { 4 } else { 8 };
                &&& message.values@.len() == facts.sample_count * n
                &&& forall|s: int, ch: int| 0 <= s < facts.sample_count && 0 <= ch < n ==> {
                    let v = #[trigger] message.values@[s * n + ch];
                    &&& v.value_payload@ == payload.subrange((s * n + ch) * w, (s * n + ch) * w + w)
                    &&& h.datatype == 0x0 ==> v.value_type == ValueType::UInt8
                    &&& h.datatype == 0x1 ==> v.value_type == ValueType::Int8
                    &&& h.datatype == 0x2 ==> v.value_type == ValueType::UInt16
                    &&& h.datatype == 0x3 ==> v.value_type == ValueType::Int16
                    &&& h.datatype == 0x4 ==> v.value_type == ValueType::UInt32
                    &&& h.datatype == 0x5 ==> v.value_type == ValueType::Int32
                    &&& h.datatype == 0x6 ==> v.value_type == ValueType::UInt64
                    &&& h.datatype == 0x7 ==> v.value_type == ValueType::Int64
                }
            },
            _ => false,
        },
{
    match (r, scan_frame(buf, p)) {
        (ParseOutcome::Complete { message, facts, .. }, FrameScan::Frame(h)) => {
            if h.datatype <= 0x7 {
                reveal(crate::cbrt::parser::frame_parts_ok);
                let payload = buf.subrange(h.payload_start as int, h.payload_start + h.payload_len);
                crate::cbrt::samples::lemma_integer_samples(message.values@, h.datatype, h.channels as int, payload,
                    facts.sample_count as int, facts.base_us, crate::cbrt::parser::explicit_period(facts));
            }
        },
        _ => {},
    }
}

} // verus!
