use vstd::prelude::*;
use crate::cbrt::crc::{crc16_modbus, crc16_modbus_checksum};

verus! {

/// The "CBRT" sync word.
pub const CBRT_SYNC: [u8; 4] = [0x43, 0x42, 0x52, 0x54];

/// The sync word as a sequence.
pub open spec fn sync_word() -> Seq<u8> {
    seq![0x43u8, 0x42u8, 0x52u8, 0x54u8]
}

/// Datatype codes: u8, i8, u16, i16, u32, i32, u64, i64, f32, f64, q15, q31, bf16, f16,
/// bool-packed; 0xF is reserved.
pub const DT_BOOL: u8 = 0xE;
pub const DT_RESERVED: u8 = 0xF;

/// Bytes per sample of a datatype; `None` for bool-packed and reserved.
pub open spec fn spec_bytes_per_datatype(dt: u8) -> Option<usize> {
    if dt == 0x0 || dt == 0x1 {
        Some(1)
    } else if dt == 0x2 || dt == 0x3 || dt == 0xA || dt == 0xC || dt == 0xD {
        Some(2)
    } else if dt == 0x4 || dt == 0x5 || dt == 0x8 || dt == 0xB {
        Some(4)
    } else if dt == 0x6 || dt == 0x7 || dt == 0x9 {
        Some(8)
    } else {
        None
    }
}

pub fn bytes_per_datatype(dt: u8) -> (r: Option<usize>)
    ensures
        r == spec_bytes_per_datatype(dt),
{
    if dt == 0x0 || dt == 0x1 {
        Some(1)
    } else if dt == 0x2 || dt == 0x3 || dt == 0xA || dt == 0xC || dt == 0xD {
        Some(2)
    } else if dt == 0x4 || dt == 0x5 || dt == 0x8 || dt == 0xB {
        Some(4)
    } else if dt == 0x6 || dt == 0x7 || dt == 0x9 {
        Some(8)
    } else {
        None
    }
}

/// Little-endian 16-bit field at `i`.
pub open spec fn le16(b: Seq<u8>, i: int) -> int {
    b[i] as int + 256 * (b[i + 1] as int)
}

/// Little-endian 32-bit field at `i`.
pub open spec fn le32(b: Seq<u8>, i: int) -> int {
    le16(b, i) + 65536 * le16(b, i + 2)
}

/// Whether the payload length is a whole number of samples across all channels.
pub open spec fn payload_aligned(payload_len: int, dt: u8, channels: u8) -> bool {
    if dt == DT_BOOL {
        (payload_len * 8) % (channels as int) == 0
    } else {
        match spec_bytes_per_datatype(dt) {
            Some(b) => payload_len % ((channels as int) * (b as int)) == 0,
            None => false,
        }
    }
}

/// The fields of one well-formed frame, with positions in the scanned buffer.
#[derive(Debug, Clone, Copy)]
pub struct FrameHeader {
    /// The byte after the sync: flags in the high nibble, datatype in the low one.
    pub flags: u8,
    pub datatype: u8,
    pub channels: u8,
    pub seq: Option<u8>,
    pub ts_raw: Option<u32>,
    pub period_us: Option<u16>,
    pub payload_start: usize,
    pub payload_len: usize,
    pub frame_end: usize,
}

/// What the bytes from a sync position hold.
#[derive(Debug, Clone, Copy)]
pub enum FrameScan {
    /// The frame is not complete yet.
    NeedMore,
    /// The candidate is not a valid frame.
    Reject,
    Frame(FrameHeader),
}

pub open spec fn flag_ts(flags: u8) -> bool { flags & 0x80 != 0 }
pub open spec fn flag_period(flags: u8) -> bool { flags & 0x40 != 0 }
pub open spec fn flag_crc(flags: u8) -> bool { flags & 0x20 != 0 }
pub open spec fn flag_seq(flags: u8) -> bool { flags & 0x10 != 0 }

/// The frame that starts with a sync word at `p`: header `sync | flags+datatype | channels |
/// [seq u8] | [ts u32] | [period u16] | payload length u16 | payload | [CRC-16 u16]`, all
/// little-endian. The reserved datatype, a channel count outside 1..=64, a payload that is not
/// a whole number of samples, or a CRC (over flags through payload) that does not match
/// rejects the candidate; a buffer that ends before any of these can be decided needs more.
pub open spec fn scan_frame(buf: Seq<u8>, p: int) -> FrameScan {
    if buf.len() < p + 6 {
        FrameScan::NeedMore
    } else {
        let flags = buf[p + 4];
        let dt = flags & 0x0F;
        let ch = buf[p + 5];
        if dt == DT_RESERVED {
            FrameScan::Reject
        } else if ch == 0 || ch > 64 {
            FrameScan::Reject
        } else {
            let c_seq = p + 6;
            let c_ts = c_seq + if flag_seq(flags) { 1int } else { 0int };
            let c_period = c_ts + if flag_ts(flags) { 4int } else { 0int };
            let c_len = c_period + if flag_period(flags) { 2int } else { 0int };
            let c_payload = c_len + 2;
            if buf.len() < c_payload {
                FrameScan::NeedMore
            } else {
                let pl = le16(buf, c_len);
                let payload_end = c_payload + pl;
                if !payload_aligned(pl, dt, ch) {
                    FrameScan::Reject
                } else if buf.len() < payload_end {
                    FrameScan::NeedMore
                } else if flag_crc(flags) && buf.len() < payload_end + 2 {
                    FrameScan::NeedMore
                } else if flag_crc(flags) && crc16_modbus(buf.subrange(p + 4, payload_end))
                    != le16(buf, payload_end) {
                    FrameScan::Reject
                } else {
                    FrameScan::Frame(FrameHeader {
                        flags,
                        datatype: dt,
                        channels: ch,
                        seq: if flag_seq(flags) { Some(buf[c_seq]) } else { None },
                        ts_raw: if flag_ts(flags) { Some(le32(buf, c_ts) as u32) } else { None },
                        period_us: if flag_period(flags) { Some(le16(buf, c_period) as u16) } else { None },
                        payload_start: c_payload as usize,
                        payload_len: pl as usize,
                        frame_end: (payload_end + if flag_crc(flags) { 2int } else { 0int }) as usize,
                    })
                }
            }
        }
    }
}

/// Bytes from the sync word to the end of a frame with these flags and payload length.
pub open spec fn frame_span(flags: u8, payload_len: int) -> int {
    8 + (if flag_seq(flags) { 1int } else { 0int }) + (if flag_ts(flags) { 4int } else { 0int })
        + (if flag_period(flags) { 2int } else { 0int }) + payload_len
        + (if flag_crc(flags) { 2int } else { 0int })
}

/// What a scanned frame guarantees about its fields and where they lie.
pub open spec fn header_ok(h: FrameHeader, buf: Seq<u8>, p: int) -> bool {
    &&& h.datatype < DT_RESERVED
    &&& h.datatype == h.flags & 0x0F
    &&& 1 <= h.channels <= 64
    &&& h.payload_len <= 0xFFFF
    &&& payload_aligned(h.payload_len as int, h.datatype, h.channels)
    &&& p + 8 <= h.payload_start
    &&& h.payload_start + h.payload_len <= h.frame_end <= buf.len()
    &&& h.frame_end - p == frame_span(h.flags, h.payload_len as int)
    &&& h.payload_start + h.payload_len + (if flag_crc(h.flags) { 2int } else { 0int }) == h.frame_end
}

pub proof fn lemma_frame_header(buf: Seq<u8>, p: int)
    requires
        0 <= p,
        buf.len() <= usize::MAX,
        scan_frame(buf, p) is Frame,
    ensures
        header_ok(scan_frame(buf, p)->0, buf, p),
{
    let flags = buf[p + 4];
    let dt = flags & 0x0F;
    assert(dt < 16) by (bit_vector)
        requires dt == flags & 0x0F;
    let c_seq = p + 6;
    let c_ts = c_seq + if flag_seq(flags) { 1int } else { 0int };
    let c_period = c_ts + if flag_ts(flags) { 4int } else { 0int };
    let c_len = c_period + if flag_period(flags) { 2int } else { 0int };
    assert(le16(buf, c_len) <= 0xFFFF);
}

fn read_le16(buf: &[u8], i: usize) -> (v: u16)
    requires
        i + 1 < buf@.len(),
    ensures
        v == le16(buf@, i as int),
{
    buf[i] as u16 + (buf[i + 1] as u16) * 256
}

fn read_le32(buf: &[u8], i: usize) -> (v: u32)
    requires
        i + 3 < buf@.len(),
    ensures
        v == le32(buf@, i as int),
{
    let n = buf.len();
    let lo = read_le16(buf, i);
    let hi = read_le16(buf, i + 2);
    lo as u32 + (hi as u32) * 65536
}

/// Scans the candidate frame at `sync_pos` (where the sync word is).
pub fn scan_at(buf: &[u8], sync_pos: usize) -> (r: FrameScan)
    requires
        sync_pos <= buf@.len(),
    ensures
        r == scan_frame(buf@, sync_pos as int),
{
    let n = buf.len();
    if n - sync_pos < 6 {
        return FrameScan::NeedMore;
    }
    let flags = buf[sync_pos + 4];
    let dt = flags & 0x0F;
    let ch = buf[sync_pos + 5];
    if dt == DT_RESERVED {
        return FrameScan::Reject;
    }
    if ch == 0 || ch > 64 {
        return FrameScan::Reject;
    }
    let has_ts = flags & 0x80 != 0;
    let has_period = flags & 0x40 != 0;
    let has_crc = flags & 0x20 != 0;
    let has_seq = flags & 0x10 != 0;
    let head: usize = 8 + (if has_seq { 1 } else { 0 }) + (if has_ts { 4 } else { 0 }) + (if has_period { 2 } else { 0 });
    if n - sync_pos < head {
        return FrameScan::NeedMore;
    }
    let c_seq = sync_pos + 6;
    let c_ts = c_seq + if has_seq { 1 } else { 0 };
    let c_period = c_ts + if has_ts { 4 } else { 0 };
    let c_len = c_period + if has_period { 2 } else { 0 };
    let c_payload = c_len + 2;
    let pl = read_le16(buf, c_len) as usize;
    let aligned = if dt == DT_BOOL {
        (pl * 8) % (ch as usize) == 0
    } else {
        match bytes_per_datatype(dt) {
            Some(b) => {
                let c = ch as usize;
                assert(1 <= c * b <= 512) by (nonlinear_arith)
                    requires
                        1 <= b <= 8,
                        1 <= c <= 64,
                ;
                pl % (c * b) == 0
            },
            None => false,
        }
    };
    if !aligned {
        return FrameScan::Reject;
    }
    if n - c_payload < pl {
        return FrameScan::NeedMore;
    }
    let payload_end = c_payload + pl;
    if has_crc && n - payload_end < 2 {
        return FrameScan::NeedMore;
    }
    if has_crc {
        let stored = read_le16(buf, payload_end);
        let computed = crc16_modbus_checksum(&buf[sync_pos + 4..payload_end]);
        if computed != stored {
            return FrameScan::Reject;
        }
    }
    let seq = if has_seq { Some(buf[c_seq]) } else { None };
    let ts_raw = if has_ts { Some(read_le32(buf, c_ts)) } else { None };
    let period_us = if has_period { Some(read_le16(buf, c_period)) } else { None };
    FrameScan::Frame(FrameHeader {
        flags,
        datatype: dt,
        channels: ch,
        seq,
        ts_raw,
        period_us,
        payload_start: c_payload,
        payload_len: pl,
        frame_end: payload_end + if has_crc { 2 } else { 0 },
    })
}

} // verus!
