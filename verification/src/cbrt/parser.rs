use vstd::prelude::*;
use crate::cbrt::report::{
    build_metadata, contents_ok, format_contents, frame_metadata, frame_segment_list, frame_segments,
    lemma_frame_segments_span, lemma_total_len, metadata_ok, segment_start,
};
use crate::cbrt::samples::{materialize_values, values_ok};
use crate::cbrt::scan::{lemma_frame_header, scan_at, scan_frame, FrameHeader, FrameScan};
use crate::cbrt::session::{apply_session_step, lemma_sample_count_range, session_step, FrameFacts, PeriodSource, SessionState};
use crate::message::{Content, Message, MessageType, PayloadType, Value};
use crate::util::copy_range;

verus! {

/// The result of decoding at one sync position.
pub enum ParseOutcome {
    /// A frame ended at `frame_end` (an index into the scanned buffer).
    Complete { frame_end: usize, message: Message, facts: FrameFacts },
    /// The bytes so far are a valid prefix of a frame.
    NeedMore,
    /// The candidate at the sync position is not a valid frame.
    Reject,
}

/// The spacing the library applies to a frame's samples: its own period field. Frames without
/// one carry the measurement in their facts (the smoothed estimate is floating point).
pub open spec fn explicit_period(f: FrameFacts) -> Option<u16> {
    match f.period {
        PeriodSource::Explicit(p) => Some(p),
        PeriodSource::Inferred(_) => None,
    }
}

/// Whether `values`, `metadata` and `contents` are what frame `h` at `p` in `buf` decodes to,
/// with session facts `f`.
#[verifier::opaque]
pub open spec fn frame_parts_ok(
    values: Seq<Value>,
    metadata: Seq<Value>,
    contents: Seq<Content>,
    buf: Seq<u8>,
    p: int,
    h: FrameHeader,
    f: FrameFacts,
) -> bool {
    let payload = buf.subrange(h.payload_start as int, h.payload_start + h.payload_len);
    let frame = buf.subrange(p, h.frame_end as int);
    &&& values_ok(values, h.datatype, h.channels as int, payload, f.sample_count as int, f.base_us,
        explicit_period(f))
    &&& metadata_ok(metadata, frame_metadata(h, f))
    &&& contents_ok(contents, frame, frame_segments(h.flags, h.payload_len as nat))
}

/// Whether `m` is the message for frame `h` found at `p` in `buf`, with session facts `f`.
pub open spec fn frame_message_ok(m: Message, buf: Seq<u8>, p: int, h: FrameHeader, f: FrameFacts, arrival_us: u64) -> bool {
    let payload = buf.subrange(h.payload_start as int, h.payload_start + h.payload_len);
    let frame = buf.subrange(p, h.frame_end as int);
    &&& m.message_type == MessageType::Rx
    &&& m.connection_id == 0
    &&& m.timestamp == arrival_us
    &&& m.payload_type == PayloadType::Binary
    &&& m.payload@ == payload
    &&& m.frame@ == frame
    &&& frame_parts_ok(m.values@, m.metadata@, m.contents@, buf, p, h, f)
    &&& m.hex_contents@.len() == 0
    &&& !m.highlighted
    &&& !m.display_hex
}

/// What decoding at `sync_pos` gives and does to the session: nothing unless a whole valid
/// frame is there; for a frame, the session step and the message built from it.
pub open spec fn parse_ok(r: ParseOutcome, before: SessionState, after: SessionState, buf: Seq<u8>, p: int, arrival_us: u64) -> bool {
    match scan_frame(buf, p) {
        FrameScan::NeedMore => r is NeedMore && after == before,
        FrameScan::Reject => r is Reject && after == before,
        FrameScan::Frame(h) => match r {
            ParseOutcome::Complete { frame_end, message, facts } => {
                &&& frame_end == h.frame_end
                &&& (after, facts) == session_step(before, h, arrival_us)
                &&& frame_message_ok(message, buf, p, h, facts, arrival_us)
            },
            _ => false,
        },
    }
}

/// Decodes the frame whose sync word is at `sync_pos`; a position past the end of the buffer
/// needs more bytes.
pub fn parse_at(state: &mut SessionState, buf: &[u8], sync_pos: usize, arrival_us: u64) -> (r: ParseOutcome)
    ensures
        parse_ok(r, *old(state), *final(state), buf@, sync_pos as int, arrival_us),
        sync_pos > buf@.len() ==> r is NeedMore && *final(state) == *old(state),
{
    if sync_pos > buf.len() {
        return ParseOutcome::NeedMore;
    }
    match scan_at(buf, sync_pos) {
        FrameScan::NeedMore => ParseOutcome::NeedMore,
        FrameScan::Reject => ParseOutcome::Reject,
        FrameScan::Frame(h) => {
            let n = buf.len();
            proof {
                lemma_frame_header(buf@, sync_pos as int);
                lemma_sample_count_range(h.payload_len as int, h.datatype, h.channels);
            }
            let facts = apply_session_step(state, h, arrival_us);
            let payload_end = h.payload_start + h.payload_len;
            let payload = copy_range(buf, h.payload_start, payload_end);
            let frame = copy_range(buf, sync_pos, h.frame_end);
            let period = match facts.period {
                PeriodSource::Explicit(p) => Some(p),
                PeriodSource::Inferred(_) => None,
            };
            let values = materialize_values(
                h.datatype,
                h.channels,
                &buf[h.payload_start..payload_end],
                facts.sample_count,
                facts.base_us,
                period,
            );
            let metadata = build_metadata(h, facts);
            let segs = frame_segment_list(h.flags, h.payload_len);
            let ghost fsegs = frame_segments(h.flags, h.payload_len as nat);
            proof {
                lemma_frame_segments_span(h.flags, h.payload_len as nat);
                lemma_total_len(segs@, fsegs, segs@.len() as int);
                assert forall|i: int| 0 <= i < segs@.len() implies crate::text::is_ascii_bytes(#[trigger] segs@[i].label@) by {}
            }
            let contents = format_contents(&buf[sync_pos..h.frame_end], &segs);
            proof {
                assert forall|i: int| 0 <= i < fsegs.len() implies {
                    let c = #[trigger] contents@[i];
                    let st = segment_start(fsegs, i) as int;
                    &&& c.content_type == fsegs[i].content_type
                    &&& c.decoration == crate::message::spec_plain_decoration()
                    &&& c.label matches Some(l) && l@ == crate::text::ascii_chars(fsegs[i].label)
                    &&& c.payload@ == crate::cbrt::report::hex_spaced(frame@.subrange(st, st + fsegs[i].len))
                } by {
                    lemma_total_len(segs@, fsegs, i);
                    assert(segs@[i].len == fsegs[i].len);
                }
            }
            proof {
                reveal(frame_parts_ok);
            }
            let mut message = Message::rx(PayloadType::Binary, payload, frame, arrival_us);
            message.values = values;
            message.metadata = metadata;
            message.contents = contents;
            ParseOutcome::Complete { frame_end: h.frame_end, message, facts }
        },
    }
}

} // verus!
