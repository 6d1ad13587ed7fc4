use vstd::prelude::*;
use crate::cbrt::names::{datatype_name, datatype_name_bytes, key_channels, key_channels_bytes, key_datatype, key_datatype_bytes, key_dropped, key_dropped_bytes, key_dup, key_dup_bytes, key_period, key_period_bytes, key_samples, key_samples_bytes, key_seq, key_seq_bytes, key_start, key_start_bytes, key_ts, key_ts_bytes, label_ch, label_ch_bytes, label_crc, label_crc_bytes, label_fd, label_fd_bytes, label_len, label_len_bytes, label_payload, label_payload_bytes, label_period, label_period_bytes, label_seq, label_seq_bytes, label_sync, label_sync_bytes, label_ts, label_ts_bytes};
use crate::cbrt::samples::le32_bytes;
use crate::cbrt::scan::{frame_span, FrameHeader};
use crate::cbrt::session::{FrameFacts, SeqEvent};
use crate::message::{content, spec_plain_decoration, Content, ContentType, Value, ValueType};
use crate::text::{ascii_chars, ascii_string, hex2_upper, hex_upper, is_ascii_bytes};

verus! {

/// Bytes as upper-case hex pairs separated by single spaces.
pub open spec fn hex_spaced(b: Seq<u8>) -> Seq<u8>
    decreases b.len(),
{
    if b.len() == 0 {
        seq![]
    } else if b.len() == 1 {
        hex2_upper(b[0])
    } else {
        hex_spaced(b.drop_last()) + seq![0x20u8] + hex2_upper(b.last())
    }
}

/// Renders `b` as spaced upper-case hex.
pub fn hex_of(b: &[u8]) -> (s: Vec<u8>)
    ensures
        s@ == hex_spaced(b@),
{
    let mut s: Vec<u8> = Vec::new();
    let mut i: usize = 0;
    assert(b@.take(0) =~= Seq::<u8>::empty());
    while i < b.len()
        invariant
            i <= b@.len(),
            s@ == hex_spaced(b@.take(i as int)),
        decreases b.len() - i,
    {
        let x = b[i];
        if i > 0 {
            s.push(0x20);
        }
        s.push(hex_upper(x / 16));
        s.push(hex_upper(x % 16));
        proof {
            let t = b@.take(i + 1);
            assert(t.drop_last() =~= b@.take(i as int));
            assert(t.last() == x);
            assert(s@ =~= hex_spaced(t));
        }
        i = i + 1;
    }
    assert(b@.take(i as int) =~= b@);
    s
}

/// One labelled field of a frame as it is shown.
pub struct Segment {
    pub content_type: ContentType,
    pub len: nat,
    pub label: Seq<u8>,
}

/// Appends `seg` when `c` holds.
pub open spec fn opt_push(s: Seq<Segment>, c: bool, seg: Segment) -> Seq<Segment> {
    if c { s.push(seg) } else { s }
}

/// The fields of a frame in order: sync, flags/datatype, channels, the optional sequence,
/// timestamp and period, the length, the payload when not empty, the optional CRC.
pub open spec fn frame_segments(flags: u8, payload_len: nat) -> Seq<Segment> {
    let s0 = seq![
        Segment { content_type: ContentType::Header, len: 4, label: label_sync() },
        Segment { content_type: ContentType::Header, len: 1, label: label_fd() },
        Segment { content_type: ContentType::Header, len: 1, label: label_ch() },
    ];
    let s1 = opt_push(s0, flags & 0x10 != 0, Segment { content_type: ContentType::Header, len: 1, label: label_seq() });
    let s2 = opt_push(s1, flags & 0x80 != 0, Segment { content_type: ContentType::Header, len: 4, label: label_ts() });
    let s3 = opt_push(s2, flags & 0x40 != 0, Segment { content_type: ContentType::Header, len: 2, label: label_period() });
    let s4 = s3.push(Segment { content_type: ContentType::LengthField, len: 2, label: label_len() });
    let s5 = opt_push(s4, payload_len > 0, Segment { content_type: ContentType::Data, len: payload_len, label: label_payload() });
    opt_push(s5, flags & 0x20 != 0, Segment { content_type: ContentType::Checksum, len: 2, label: label_crc() })
}

/// Where segment `i` starts.
pub open spec fn segment_start(segs: Seq<Segment>, i: int) -> nat
    decreases i,
{
    if i <= 0 { 0 } else { segment_start(segs, i - 1) + segs[i - 1].len }
}

proof fn lemma_start_push(s: Seq<Segment>, x: Segment, i: int)
    requires
        0 <= i <= s.len(),
    ensures
        segment_start(s.push(x), i) == segment_start(s, i),
    decreases i,
{
    if i > 0 {
        lemma_start_push(s, x, i - 1);
        assert(s.push(x)[i - 1] == s[i - 1]);
    }
}

proof fn lemma_opt_push_span(s: Seq<Segment>, c: bool, x: Segment)
    ensures
        segment_start(opt_push(s, c, x), opt_push(s, c, x).len() as int)
            == segment_start(s, s.len() as int) + if c { x.len } else { 0 },
{
    if c {
        lemma_start_push(s, x, s.len() as int);
        assert(s.push(x)[s.len() as int] == x);
    }
}

/// The fields of a frame cover it exactly.
pub proof fn lemma_frame_segments_span(flags: u8, payload_len: nat)
    ensures
        segment_start(frame_segments(flags, payload_len), frame_segments(flags, payload_len).len() as int)
            == frame_span(flags, payload_len as int),
{
    let s0 = seq![
        Segment { content_type: ContentType::Header, len: 4, label: label_sync() },
        Segment { content_type: ContentType::Header, len: 1, label: label_fd() },
        Segment { content_type: ContentType::Header, len: 1, label: label_ch() },
    ];
    assert(segment_start(s0, 0) == 0);
    assert(segment_start(s0, 1) == 4);
    assert(segment_start(s0, 2) == 5);
    assert(segment_start(s0, 3) == 6);
    let x1 = Segment { content_type: ContentType::Header, len: 1, label: label_seq() };
    let s1 = opt_push(s0, flags & 0x10 != 0, x1);
    lemma_opt_push_span(s0, flags & 0x10 != 0, x1);
    let x2 = Segment { content_type: ContentType::Header, len: 4, label: label_ts() };
    let s2 = opt_push(s1, flags & 0x80 != 0, x2);
    lemma_opt_push_span(s1, flags & 0x80 != 0, x2);
    let x3 = Segment { content_type: ContentType::Header, len: 2, label: label_period() };
    let s3 = opt_push(s2, flags & 0x40 != 0, x3);
    lemma_opt_push_span(s2, flags & 0x40 != 0, x3);
    let x4 = Segment { content_type: ContentType::LengthField, len: 2, label: label_len() };
    let s4 = s3.push(x4);
    lemma_opt_push_span(s3, true, x4);
    let x5 = Segment { content_type: ContentType::Data, len: payload_len, label: label_payload() };
    let s5 = opt_push(s4, payload_len > 0, x5);
    lemma_opt_push_span(s4, payload_len > 0, x5);
    let x6 = Segment { content_type: ContentType::Checksum, len: 2, label: label_crc() };
    lemma_opt_push_span(s5, flags & 0x20 != 0, x6);
}

/// Whether `contents` show each segment of `frame` as labelled spaced hex.
pub open spec fn contents_ok(contents: Seq<Content>, frame: Seq<u8>, segs: Seq<Segment>) -> bool {
    &&& contents.len() == segs.len()
    &&& forall|i: int| 0 <= i < segs.len() ==> {
        let c = #[trigger] contents[i];
        let st = segment_start(segs, i) as int;
        &&& c.content_type == segs[i].content_type
        &&& c.decoration == spec_plain_decoration()
        &&& c.label matches Some(l) && l@ == ascii_chars(segs[i].label)
        &&& c.payload@ == hex_spaced(frame.subrange(st, st + segs[i].len))
    }
}

/// Appends the segment of `len` bytes at `pos`.
fn push_segment(contents: &mut Vec<Content>, frame: &[u8], pos: usize, len: usize, label: Vec<u8>, kind: ContentType)
    requires
        pos + len <= frame@.len(),
        is_ascii_bytes(label@),
    ensures
        final(contents)@.len() == old(contents)@.len() + 1,
        forall|j: int| 0 <= j < old(contents)@.len() ==> final(contents)@[j] == old(contents)@[j],
        ({
            let c = final(contents)@.last();
            &&& c.content_type == kind
            &&& c.decoration == spec_plain_decoration()
            &&& c.label matches Some(l) && l@ == ascii_chars(label@)
            &&& c.payload@ == hex_spaced(frame@.subrange(pos as int, pos + len))
        }),
{
    let n = frame.len();
    let hex = hex_of(&frame[pos..pos + len]);
    let mut c = content(kind, hex);
    c.label = Some(ascii_string(label));
    contents.push(c);
}


/// A segment to render.
pub struct SegmentSpec {
    pub content_type: ContentType,
    pub len: usize,
    pub label: Vec<u8>,
}

/// Whether the executable segment list matches the described one.
pub open spec fn segment_list_ok(v: Seq<SegmentSpec>, segs: Seq<Segment>) -> bool {
    &&& v.len() == segs.len()
    &&& forall|i: int| 0 <= i < v.len() ==> {
        &&& (#[trigger] v[i]).content_type == segs[i].content_type
        &&& v[i].len == segs[i].len
        &&& v[i].label@ == segs[i].label
        &&& is_ascii_bytes(v[i].label@)
    }
}

fn push_spec(v: &mut Vec<SegmentSpec>, content_type: ContentType, len: usize, label: Vec<u8>)
    ensures
        final(v)@ == old(v)@.push(SegmentSpec { content_type, len, label }),
{
    v.push(SegmentSpec { content_type, len, label });
}

/// The segment list of a frame.
pub fn frame_segment_list(flags: u8, payload_len: usize) -> (v: Vec<SegmentSpec>)
    ensures
        segment_list_ok(v@, frame_segments(flags, payload_len as nat)),
{
    let mut v: Vec<SegmentSpec> = Vec::new();
    push_spec(&mut v, ContentType::Header, 4, label_sync_bytes());
    push_spec(&mut v, ContentType::Header, 1, label_fd_bytes());
    push_spec(&mut v, ContentType::Header, 1, label_ch_bytes());
    let ghost mut segs: Seq<Segment> = seq![
        Segment { content_type: ContentType::Header, len: 4, label: label_sync() },
        Segment { content_type: ContentType::Header, len: 1, label: label_fd() },
        Segment { content_type: ContentType::Header, len: 1, label: label_ch() },
    ];
    assert(segment_list_ok(v@, segs));
    let ghost seg = Segment { content_type: ContentType::Header, len: 1, label: label_seq() };
    if flags & 0x10 != 0 {
        push_spec(&mut v, ContentType::Header, 1, label_seq_bytes());
    }
    proof { segs = opt_push(segs, flags & 0x10 != 0, seg); }
    assert(segment_list_ok(v@, segs));
    let ghost seg = Segment { content_type: ContentType::Header, len: 4, label: label_ts() };
    if flags & 0x80 != 0 {
        push_spec(&mut v, ContentType::Header, 4, label_ts_bytes());
    }
    proof { segs = opt_push(segs, flags & 0x80 != 0, seg); }
    assert(segment_list_ok(v@, segs));
    let ghost seg = Segment { content_type: ContentType::Header, len: 2, label: label_period() };
    if flags & 0x40 != 0 {
        push_spec(&mut v, ContentType::Header, 2, label_period_bytes());
    }
    proof { segs = opt_push(segs, flags & 0x40 != 0, seg); }
    assert(segment_list_ok(v@, segs));
    push_spec(&mut v, ContentType::LengthField, 2, label_len_bytes());
    proof { segs = segs.push(Segment { content_type: ContentType::LengthField, len: 2, label: label_len() }); }
    assert(segment_list_ok(v@, segs));
    let ghost seg = Segment { content_type: ContentType::Data, len: payload_len as nat, label: label_payload() };
    if payload_len > 0 {
        push_spec(&mut v, ContentType::Data, payload_len, label_payload_bytes());
    }
    proof { segs = opt_push(segs, payload_len > 0, seg); }
    assert(segment_list_ok(v@, segs));
    let ghost seg = Segment { content_type: ContentType::Checksum, len: 2, label: label_crc() };
    if flags & 0x20 != 0 {
        push_spec(&mut v, ContentType::Checksum, 2, label_crc_bytes());
    }
    proof { segs = opt_push(segs, flags & 0x20 != 0, seg); }
    assert(segment_list_ok(v@, segs));
    v
}

/// Total length of the segments before `i`.
pub open spec fn total_len(v: Seq<SegmentSpec>, i: int) -> nat
    decreases i,
{
    if i <= 0 { 0 } else { total_len(v, i - 1) + v[i - 1].len as nat }
}

pub proof fn lemma_total_len(v: Seq<SegmentSpec>, segs: Seq<Segment>, i: int)
    requires
        segment_list_ok(v, segs),
        0 <= i <= v.len(),
    ensures
        total_len(v, i) == segment_start(segs, i),
    decreases i,
{
    if i > 0 {
        lemma_total_len(v, segs, i - 1);
    }
}

/// Shows `frame` segment by segment.
pub fn format_contents(frame: &[u8], segs: &Vec<SegmentSpec>) -> (contents: Vec<Content>)
    requires
        total_len(segs@, segs@.len() as int) == frame@.len(),
        forall|i: int| 0 <= i < segs@.len() ==> is_ascii_bytes(#[trigger] segs@[i].label@),
    ensures
        contents@.len() == segs@.len(),
        forall|i: int| 0 <= i < segs@.len() ==> {
            let c = #[trigger] contents@[i];
            let st = total_len(segs@, i) as int;
            &&& c.content_type == segs@[i].content_type
            &&& c.decoration == spec_plain_decoration()
            &&& c.label matches Some(l) && l@ == ascii_chars(segs@[i].label@)
            &&& c.payload@ == hex_spaced(frame@.subrange(st, st + segs@[i].len))
        },
{
    let n = frame.len();
    let mut contents: Vec<Content> = Vec::new();
    let mut pos: usize = 0;
    let mut i: usize = 0;
    while i < segs.len()
        invariant
            i <= segs@.len(),
            pos == total_len(segs@, i as int),
            total_len(segs@, segs@.len() as int) == frame@.len(),
            n == frame@.len(),
            forall|k: int| 0 <= k < segs@.len() ==> is_ascii_bytes(#[trigger] segs@[k].label@),
            contents@.len() == i,
            forall|k: int| 0 <= k < i ==> {
                let c = #[trigger] contents@[k];
                let st = total_len(segs@, k) as int;
                &&& c.content_type == segs@[k].content_type
                &&& c.decoration == spec_plain_decoration()
                &&& c.label matches Some(l) && l@ == ascii_chars(segs@[k].label@)
                &&& c.payload@ == hex_spaced(frame@.subrange(st, st + segs@[k].len))
            },
        decreases segs.len() - i,
    {
        proof { lemma_total_len_mono(segs@, i as int + 1, segs@.len() as int); }
        let seg = &segs[i];
        push_segment(&mut contents, frame, pos, seg.len, clone_vec(&seg.label), seg.content_type);
        pos = pos + seg.len;
        i = i + 1;
    }
    contents
}

pub proof fn lemma_total_len_mono(v: Seq<SegmentSpec>, i: int, j: int)
    requires
        0 <= i <= j,
    ensures
        total_len(v, i) <= total_len(v, j),
    decreases j - i,
{
    if j > i {
        lemma_total_len_mono(v, i, j - 1);
    }
}

fn clone_vec(v: &Vec<u8>) -> (r: Vec<u8>)
    ensures
        r@ == v@,
{
    crate::codec::passthrough::clone_bytes(v)
}


/// One metadata entry as it is described.
pub struct MetaSpec {
    pub key: Seq<u8>,
    pub value_type: ValueType,
    pub payload: Seq<u8>,
}

/// Appends an entry when there is one.
pub open spec fn opt_meta(s: Seq<MetaSpec>, m: Option<MetaSpec>) -> Seq<MetaSpec> {
    match m {
        Some(x) => s.push(x),
        None => s,
    }
}

/// Little-endian bytes of a 64-bit word.
pub open spec fn le64_bytes(x: u64) -> Seq<u8> {
    le32_bytes((x % 0x1_0000_0000) as u32) + le32_bytes((x / 0x1_0000_0000) as u32)
}

/// The four little-endian bytes of a 32-bit word, weighted by place, sum to the word.
proof fn lemma_le32_sum(y: u32)
    ensures
        ({
            let b = le32_bytes(y);
            b[0] + 256 * b[1] + 65536 * b[2] + 16777216 * b[3] == y
        }),
{
}

/// The little-endian bytes of a 64-bit word read back as that word.
#[verifier::rlimit(40)]
pub proof fn lemma_le64_word(x: u64)
    ensures
        crate::message::le_word(le64_bytes(x), 8) == x,
{
    let b = le64_bytes(x);
    let lo = (x % 0x1_0000_0000) as u32;
    let hi = (x / 0x1_0000_0000) as u32;
    lemma_le32_sum(lo);
    lemma_le32_sum(hi);
    assert(b.len() == 8);
    assert(b[0] + 256 * b[1] + 65536 * b[2] + 16777216 * b[3] == lo);
    assert(b[4] + 256 * b[5] + 65536 * b[6] + 16777216 * b[7] == hi);
    assert(lo + 0x1_0000_0000 * hi == x);
    assert(crate::message::pow256(0) == 1);
    assert(crate::message::pow256(1) == 0x100);
    assert(crate::message::pow256(2) == 0x1_0000);
    assert(crate::message::pow256(3) == 0x100_0000);
    assert(crate::message::pow256(4) == 0x1_0000_0000);
    assert(crate::message::pow256(5) == 0x100_0000_0000);
    assert(crate::message::pow256(6) == 0x1_0000_0000_0000);
    assert(crate::message::pow256(7) == 0x100_0000_0000_0000);
    assert(crate::message::le_word(b, 0) == 0);
    assert(crate::message::le_word(b, 1) == b[0]);
    assert(crate::message::le_word(b, 2) == b[0] + 0x100 * b[1]);
    assert(crate::message::le_word(b, 3) == b[0] + 0x100 * b[1] + 0x1_0000 * b[2]);
    assert(crate::message::le_word(b, 4) == lo);
    assert(crate::message::le_word(b, 5) == lo + 0x1_0000_0000 * b[4]);
    assert(crate::message::le_word(b, 6) == lo + 0x1_0000_0000 * b[4] + 0x100_0000_0000 * b[5]);
    assert(crate::message::le_word(b, 7) == lo + 0x1_0000_0000 * b[4] + 0x100_0000_0000 * b[5]
        + 0x1_0000_0000_0000 * b[6]);
    assert(crate::message::le_word(b, 8) == lo + 0x1_0000_0000 * b[4] + 0x100_0000_0000 * b[5]
        + 0x1_0000_0000_0000 * b[6] + 0x100_0000_0000_0000 * b[7]);
}

/// Little-endian bytes of a 16-bit word.
pub open spec fn le16_bytes(x: u16) -> Seq<u8> {
    seq![(x % 256) as u8, (x / 256) as u8]
}

/// The metadata of a decoded frame: datatype name, channel count, samples per channel; the
/// sequence number, full timestamp and period field when present; a session-start flag;
/// a duplicate flag or the count of skipped sequence numbers.
pub open spec fn frame_metadata(h: FrameHeader, f: FrameFacts) -> Seq<MetaSpec> {
    let m0 = seq![
        MetaSpec { key: key_datatype(), value_type: ValueType::String, payload: datatype_name(h.datatype) },
        MetaSpec { key: key_channels(), value_type: ValueType::UInt8, payload: seq![h.channels] },
        MetaSpec { key: key_samples(), value_type: ValueType::UInt32, payload: le32_bytes(f.sample_count as u32) },
    ];
    let m1 = opt_meta(m0, match h.seq {
        Some(q) => Some(MetaSpec { key: key_seq(), value_type: ValueType::UInt8, payload: seq![q] }),
        None => None,
    });
    let m2 = opt_meta(m1, match f.full_ts_us {
        Some(t) => Some(MetaSpec { key: key_ts(), value_type: ValueType::UInt64, payload: le64_bytes(t) }),
        None => None,
    });
    let m3 = opt_meta(m2, match h.period_us {
        Some(p) => Some(MetaSpec { key: key_period(), value_type: ValueType::UInt16, payload: le16_bytes(p) }),
        None => None,
    });
    let m4 = opt_meta(m3, if f.session_start {
        Some(MetaSpec { key: key_start(), value_type: ValueType::Boolean, payload: seq![1u8] })
    } else {
        None
    });
    opt_meta(m4, match f.seq_event {
        Some(SeqEvent::Duplicate) => Some(MetaSpec { key: key_dup(), value_type: ValueType::Boolean, payload: seq![1u8] }),
        Some(SeqEvent::Dropped(n)) => Some(MetaSpec { key: key_dropped(), value_type: ValueType::UInt8, payload: seq![n] }),
        None => None,
    })
}

/// Whether `values` are the described metadata entries (timestamp 0).
pub open spec fn metadata_ok(values: Seq<Value>, metas: Seq<MetaSpec>) -> bool {
    &&& values.len() == metas.len()
    &&& forall|i: int| 0 <= i < metas.len() ==> {
        let v = #[trigger] values[i];
        &&& v.id@ == ascii_chars(metas[i].key)
        &&& v.timestamp == 0
        &&& v.value_type == metas[i].value_type
        &&& v.value_payload@ == metas[i].payload
    }
}

fn push_meta(out: &mut Vec<Value>, key: Vec<u8>, value_type: ValueType, payload: Vec<u8>, Ghost(metas): Ghost<Seq<MetaSpec>>)
    requires
        is_ascii_bytes(key@),
        metadata_ok(old(out)@, metas),
    ensures
        metadata_ok(final(out)@, metas.push(MetaSpec { key: key@, value_type, payload: payload@ })),
{
    let ghost k = key@;
    let ghost pl = payload@;
    let id = ascii_string(key);
    out.push(Value { id, timestamp: 0, value_type, value_payload: payload });
    proof {
        let m2 = metas.push(MetaSpec { key: k, value_type, payload: pl });
        assert forall|i: int| 0 <= i < m2.len() implies {
            let v = #[trigger] final(out)@[i];
            &&& v.id@ == ascii_chars(m2[i].key)
            &&& v.timestamp == 0
            &&& v.value_type == m2[i].value_type
            &&& v.value_payload@ == m2[i].payload
        } by {
            if i < metas.len() {
                assert(final(out)@[i] == old(out)@[i]);
            }
        }
    }
}

fn one_byte(b: u8) -> (v: Vec<u8>)
    ensures
        v@ == seq![b],
{
    let mut v: Vec<u8> = Vec::new();
    v.push(b);
    assert(v@ =~= seq![b]);
    v
}

fn le16_vec(x: u16) -> (v: Vec<u8>)
    ensures
        v@ == le16_bytes(x),
{
    let v = vec![(x % 256) as u8, (x / 256) as u8];
    assert(v@ =~= le16_bytes(x));
    v
}

fn le32_vec(x: u32) -> (v: Vec<u8>)
    ensures
        v@ == le32_bytes(x),
{
    let mut v: Vec<u8> = Vec::new();
    crate::cbrt::samples::push_le32(&mut v, x);
    assert(v@ =~= le32_bytes(x));
    v
}

pub fn le64_vec(x: u64) -> (v: Vec<u8>)
    ensures
        v@ == le64_bytes(x),
{
    let mut v: Vec<u8> = Vec::new();
    crate::cbrt::samples::push_le32(&mut v, (x % 0x1_0000_0000) as u32);
    crate::cbrt::samples::push_le32(&mut v, (x / 0x1_0000_0000) as u32);
    assert(v@ =~= le64_bytes(x));
    v
}


/// The metadata values of a decoded frame.
pub fn build_metadata(h: FrameHeader, f: FrameFacts) -> (out: Vec<Value>)
    ensures
        metadata_ok(out@, frame_metadata(h, f)),
{
    let mut out: Vec<Value> = Vec::new();
    let ghost mut m: Seq<MetaSpec> = seq![];
    push_meta(&mut out, key_datatype_bytes(), ValueType::String, datatype_name_bytes(h.datatype), Ghost(m));
    proof { m = m.push(MetaSpec { key: key_datatype(), value_type: ValueType::String, payload: datatype_name(h.datatype) }); }
    push_meta(&mut out, key_channels_bytes(), ValueType::UInt8, one_byte(h.channels), Ghost(m));
    proof { m = m.push(MetaSpec { key: key_channels(), value_type: ValueType::UInt8, payload: seq![h.channels] }); }
    push_meta(&mut out, key_samples_bytes(), ValueType::UInt32, le32_vec(f.sample_count as u32), Ghost(m));
    proof {
        m = m.push(MetaSpec { key: key_samples(), value_type: ValueType::UInt32, payload: le32_bytes(f.sample_count as u32) });
        assert(m =~= seq![
            MetaSpec { key: key_datatype(), value_type: ValueType::String, payload: datatype_name(h.datatype) },
            MetaSpec { key: key_channels(), value_type: ValueType::UInt8, payload: seq![h.channels] },
            MetaSpec { key: key_samples(), value_type: ValueType::UInt32, payload: le32_bytes(f.sample_count as u32) },
        ]);
    }
    match h.seq {
        Some(q) => {
            push_meta(&mut out, key_seq_bytes(), ValueType::UInt8, one_byte(q), Ghost(m));
            proof { m = m.push(MetaSpec { key: key_seq(), value_type: ValueType::UInt8, payload: seq![q] }); }
        },
        None => {},
    }
    match f.full_ts_us {
        Some(t) => {
            push_meta(&mut out, key_ts_bytes(), ValueType::UInt64, le64_vec(t), Ghost(m));
            proof { m = m.push(MetaSpec { key: key_ts(), value_type: ValueType::UInt64, payload: le64_bytes(t) }); }
        },
        None => {},
    }
    match h.period_us {
        Some(p) => {
            push_meta(&mut out, key_period_bytes(), ValueType::UInt16, le16_vec(p), Ghost(m));
            proof { m = m.push(MetaSpec { key: key_period(), value_type: ValueType::UInt16, payload: le16_bytes(p) }); }
        },
        None => {},
    }
    if f.session_start {
        push_meta(&mut out, key_start_bytes(), ValueType::Boolean, one_byte(1u8), Ghost(m));
        proof { m = m.push(MetaSpec { key: key_start(), value_type: ValueType::Boolean, payload: seq![1u8] }); }
    }
    match f.seq_event {
        Some(SeqEvent::Duplicate) => {
            push_meta(&mut out, key_dup_bytes(), ValueType::Boolean, one_byte(1u8), Ghost(m));
            proof { m = m.push(MetaSpec { key: key_dup(), value_type: ValueType::Boolean, payload: seq![1u8] }); }
        },
        Some(SeqEvent::Dropped(n)) => {
            push_meta(&mut out, key_dropped_bytes(), ValueType::UInt8, one_byte(n), Ghost(m));
            proof { m = m.push(MetaSpec { key: key_dropped(), value_type: ValueType::UInt8, payload: seq![n] }); }
        },
        None => {},
    }
    out
}

} // verus!
