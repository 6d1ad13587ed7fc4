use vstd::prelude::*;
use crate::cbrt::floats::{f16_to_f32, f16_to_f32_bits, q15_to_f32, q15_to_f32_bits, q31_to_f32, q31_to_f32_bits};
use crate::cbrt::scan::{le16, le32, spec_bytes_per_datatype};
use crate::message::{Value, ValueType};
use crate::text::{ascii_chars, ascii_string, decimal, is_ascii_bytes, lemma_decimal_ascii, push_decimal};

verus! {

/// The value type a datatype code decodes to.
pub open spec fn dt_value_type(dt: u8) -> ValueType {
    if dt == 0x0 { ValueType::UInt8 }
    else if dt == 0x1 { ValueType::Int8 }
    else if dt == 0x2 { ValueType::UInt16 }
    else if dt == 0x3 { ValueType::Int16 }
    else if dt == 0x4 { ValueType::UInt32 }
    else if dt == 0x5 { ValueType::Int32 }
    else if dt == 0x6 { ValueType::UInt64 }
    else if dt == 0x7 { ValueType::Int64 }
    else if dt == 0x9 { ValueType::Float64 }
    else if dt == 0xE { ValueType::Boolean }
    else { ValueType::Float32 }
}

fn value_type_of(dt: u8) -> (t: ValueType)
    ensures
        t == dt_value_type(dt),
{
    if dt == 0x0 { ValueType::UInt8 }
    else if dt == 0x1 { ValueType::Int8 }
    else if dt == 0x2 { ValueType::UInt16 }
    else if dt == 0x3 { ValueType::Int16 }
    else if dt == 0x4 { ValueType::UInt32 }
    else if dt == 0x5 { ValueType::Int32 }
    else if dt == 0x6 { ValueType::UInt64 }
    else if dt == 0x7 { ValueType::Int64 }
    else if dt == 0x9 { ValueType::Float64 }
    else if dt == 0xE { ValueType::Boolean }
    else { ValueType::Float32 }
}

/// Little-endian bytes of a 32-bit word.
pub open spec fn le32_bytes(x: u32) -> Seq<u8> {
    seq![(x % 256) as u8, (x / 256 % 256) as u8, (x / 65536 % 256) as u8, (x / 16777216) as u8]
}

pub fn push_le32(out: &mut Vec<u8>, x: u32)
    ensures
        final(out)@ == old(out)@ + le32_bytes(x),
{
    out.push((x % 256) as u8);
    out.push((x / 256 % 256) as u8);
    out.push((x / 65536 % 256) as u8);
    out.push((x / 16777216) as u8);
    assert(final(out)@ =~= old(out)@ + le32_bytes(x));
}

/// The little-endian payload of the value for the sample whose bytes start at `off`
/// (numeric datatypes): integers, f32 and f64 as they are; Q15, Q31, bf16 and f16 widened to
/// binary32.
pub open spec fn sample_payload(dt: u8, payload: Seq<u8>, off: int) -> Seq<u8> {
    if dt == 0xA {
        le32_bytes(q15_to_f32_bits(le16(payload, off) as u16 as i16))
    } else if dt == 0xB {
        le32_bytes(q31_to_f32_bits(le32(payload, off) as u32 as i32))
    } else if dt == 0xC {
        le32_bytes((le16(payload, off) * 65536) as u32)
    } else if dt == 0xD {
        le32_bytes(f16_to_f32_bits(le16(payload, off) as u16))
    } else {
        payload.subrange(off, off + spec_bytes_per_datatype(dt).unwrap() as int)
    }
}

/// The bit of bool-packed sample data at bit index `i` (MSB first within each byte).
pub open spec fn packed_bit(payload: Seq<u8>, i: int) -> u8 {
    (payload[i / 8] >> ((7 - i % 8) as u8)) & 1u8
}

/// The id of channel `ch`: "ch" followed by its decimal number.
pub open spec fn channel_id(ch: nat) -> Seq<u8> {
    seq![0x63u8, 0x68u8] + decimal(ch)
}

pub fn channel_id_string(ch: usize) -> (s: String)
    ensures
        s@ == ascii_chars(channel_id(ch as nat)),
{
    let mut v: Vec<u8> = vec![0x63u8, 0x68u8];
    let ghost start = v@;
    push_decimal(&mut v, ch as u64);
    proof {
        lemma_decimal_ascii(ch as nat);
        assert(v@ =~= channel_id(ch as nat));
        assert forall|i: int| 0 <= i < v@.len() implies v@[i] < 0x80 by {
            if i >= 2 {
                assert(v@[i] == decimal(ch as nat)[i - 2]);
            }
        }
    }
    ascii_string(v)
}

/// Timestamp of sample `s`: with a period, sample `s` sits `s` periods after the base
/// (clamped to the `u64` range); without a period every sample shares the base.
pub open spec fn sample_ts(base: u64, period: Option<u16>, s: int) -> u64 {
    match period {
        None => base,
        Some(p) => {
            let t = base as int + s * (p as int);
            if t > u64::MAX { u64::MAX } else { t as u64 }
        },
    }
}

pub fn compute_sample_ts(base: u64, period: Option<u16>, s: usize) -> (t: u64)
    requires
        s <= 0xFFFF * 8,
    ensures
        t == sample_ts(base, period, s as int),
{
    match period {
        None => base,
        Some(p) => {
            assert(s * (p as int) <= 0xFFFF * 8 * 0xFFFF) by (nonlinear_arith)
                requires
                    0 <= s <= 0xFFFF * 8,
                    0 <= p <= 0xFFFF,
            ;
            let t: u128 = base as u128 + (s as u128) * (p as u128);
            if t > u64::MAX as u128 { u64::MAX } else { t as u64 }
        },
    }
}

/// Whether `v` is the value of sample `s` on channel `ch` (numeric datatypes).
pub open spec fn numeric_value_ok(v: Value, dt: u8, payload: Seq<u8>, channels: int, s: int, ch: int, ts: u64) -> bool {
    let bps = spec_bytes_per_datatype(dt).unwrap() as int;
    &&& v.id@ == ascii_chars(channel_id(ch as nat))
    &&& v.timestamp == ts
    &&& v.value_type == dt_value_type(dt)
    &&& v.value_payload@ == sample_payload(dt, payload, s * (channels * bps) + ch * bps)
}

/// Whether `v` is the value of sample `s` on channel `ch` (bool-packed).
pub open spec fn bool_value_ok(v: Value, payload: Seq<u8>, channels: int, s: int, ch: int, ts: u64) -> bool {
    &&& v.id@ == ascii_chars(channel_id(ch as nat))
    &&& v.timestamp == ts
    &&& v.value_type == ValueType::Boolean
    &&& v.value_payload@ == seq![packed_bit(payload, s * channels + ch)]
}

/// Whether `values` are the channel-interleaved samples of the payload.
pub open spec fn values_ok(
    values: Seq<Value>,
    dt: u8,
    channels: int,
    payload: Seq<u8>,
    count: int,
    base: u64,
    period: Option<u16>,
) -> bool {
    &&& values.len() == count * channels
    &&& forall|s: int, ch: int| 0 <= s < count && 0 <= ch < channels ==> {
        let v = #[trigger] values[s * channels + ch];
        let ts = sample_ts(base, period, s);
        if dt == 0xE {
            bool_value_ok(v, payload, channels, s, ch, ts)
        } else {
            numeric_value_ok(v, dt, payload, channels, s, ch, ts)
        }
    }
}

/// Integer samples keep their width and signedness: for datatype codes 0x0..0x7 (u8, i8,
/// u16, i16, u32, i32, u64, i64) sample `s` of channel `ch` is a value of exactly that integer
/// type whose bytes are the sample's own little-endian bytes in the payload, taken in
/// channel-interleaved order.
pub proof fn lemma_integer_samples(
    values: Seq<Value>,
    dt: u8,
    channels: int,
    payload: Seq<u8>,
    count: int,
    base: u64,
    period: Option<u16>,
)
    requires
        values_ok(values, dt, channels, payload, count, base, period),
        dt <= 0x7,
        channels > 0,
    ensures
        forall|s: int, ch: int| 0 <= s < count && 0 <= ch < channels ==> {
            let v = #[trigger] values[s * channels + ch];
            let w: int = if dt <= 0x1 { 1 } else if dt <= 0x3 { 2 } else if dt <= 0x5 { 4 } else { 8 };
            let off = (s * channels + ch) * w;
            &&& v.value_payload@ == payload.subrange(off, off + w)
            &&& dt == 0x0 ==> v.value_type == ValueType::UInt8
            &&& dt == 0x1 ==> v.value_type == ValueType::Int8
            &&& dt == 0x2 ==> v.value_type == ValueType::UInt16
            &&& dt == 0x3 ==> v.value_type == ValueType::Int16
            &&& dt == 0x4 ==> v.value_type == ValueType::UInt32
            &&& dt == 0x5 ==> v.value_type == ValueType::Int32
            &&& dt == 0x6 ==> v.value_type == ValueType::UInt64
            &&& dt == 0x7 ==> v.value_type == ValueType::Int64
        },
{
    assert forall|s: int, ch: int| 0 <= s < count && 0 <= ch < channels implies {
        let v = #[trigger] values[s * channels + ch];
        let w: int = if dt <= 0x1 { 1 } else if dt <= 0x3 { 2 } else if dt <= 0x5 { 4 } else { 8 };
        let off = (s * channels + ch) * w;
        &&& v.value_payload@ == payload.subrange(off, off + w)
        &&& dt == 0x0 ==> v.value_type == ValueType::UInt8
        &&& dt == 0x1 ==> v.value_type == ValueType::Int8
        &&& dt == 0x2 ==> v.value_type == ValueType::UInt16
        &&& dt == 0x3 ==> v.value_type == ValueType::Int16
        &&& dt == 0x4 ==> v.value_type == ValueType::UInt32
        &&& dt == 0x5 ==> v.value_type == ValueType::Int32
        &&& dt == 0x6 ==> v.value_type == ValueType::UInt64
        &&& dt == 0x7 ==> v.value_type == ValueType::Int64
    } by {
        let w: int = if dt <= 0x1 { 1 } else if dt <= 0x3 { 2 } else if dt <= 0x5 { 4 } else { 8 };
        assert(spec_bytes_per_datatype(dt) == Some(w as usize));
        assert(s * (channels * w) + ch * w == (s * channels + ch) * w) by (nonlinear_arith);
    }
}

fn read_u16(p: &[u8], off: usize) -> (v: u16)
    requires
        off + 1 < p@.len(),
    ensures
        v == le16(p@, off as int),
{
    p[off] as u16 + (p[off + 1] as u16) * 256
}

fn read_u32(p: &[u8], off: usize) -> (v: u32)
    requires
        off + 3 < p@.len(),
    ensures
        v == le32(p@, off as int),
{
    let n = p.len();
    let lo = read_u16(p, off);
    let hi = read_u16(p, off + 2);
    lo as u32 + (hi as u32) * 65536
}

/// The payload of one numeric sample.
fn numeric_payload(dt: u8, payload: &[u8], off: usize, bps: usize) -> (r: Vec<u8>)
    requires
        dt != 0xE && dt != 0xF,
        spec_bytes_per_datatype(dt) == Some(bps),
        off + bps <= payload@.len(),
    ensures
        r@ == sample_payload(dt, payload@, off as int),
{
    if dt == 0xA {
        let raw = read_u16(payload, off) as i16;
        let mut v: Vec<u8> = Vec::new();
        push_le32(&mut v, q15_to_f32(raw));
        assert(v@ =~= sample_payload(dt, payload@, off as int));
        v
    } else if dt == 0xB {
        let raw = read_u32(payload, off) as i32;
        let mut v: Vec<u8> = Vec::new();
        push_le32(&mut v, q31_to_f32(raw));
        assert(v@ =~= sample_payload(dt, payload@, off as int));
        v
    } else if dt == 0xC {
        let bits = read_u16(payload, off);
        let mut v: Vec<u8> = Vec::new();
        push_le32(&mut v, (bits as u32) * 65536);
        assert(v@ =~= sample_payload(dt, payload@, off as int));
        v
    } else if dt == 0xD {
        let bits = read_u16(payload, off);
        let mut v: Vec<u8> = Vec::new();
        push_le32(&mut v, f16_to_f32(bits));
        assert(v@ =~= sample_payload(dt, payload@, off as int));
        v
    } else {
        let n = payload.len();
        crate::util::copy_range(payload, off, off + bps)
    }
}

/// Decodes the channel-interleaved samples of a payload into values `ch0`..`chN-1`, sample
/// by sample, with per-sample timestamps.
pub fn materialize_values(
    dt: u8,
    channels: u8,
    payload: &[u8],
    count: usize,
    base: u64,
    period: Option<u16>,
) -> (out: Vec<Value>)
    requires
        dt < 0xF,
        1 <= channels <= 64,
        payload@.len() <= 0xFFFF,
        count == crate::cbrt::session::sample_count_of(payload@.len() as int, dt, channels),
    ensures
        values_ok(out@, dt, channels as int, payload@, count as int, base, period),
{
    let chans = channels as usize;
    let mut out: Vec<Value> = Vec::new();
    let bps: usize = match crate::cbrt::scan::bytes_per_datatype(dt) {
        Some(b) => b,
        None => 0,
    };
    let pl = payload.len();
    proof {
        if dt == 0xE {
            assert(count * chans <= pl * 8) by (nonlinear_arith)
                requires count as int == (pl * 8) as int / (chans as int), chans >= 1;
        } else {
            assert(1 <= bps <= 8);
            assert(count * (chans * bps) <= pl) by (nonlinear_arith)
                requires count as int == (pl as int) / ((chans * bps) as int), chans >= 1, bps >= 1;
        }
    }
    assert(count <= 0xFFFF * 8) by (nonlinear_arith)
        requires
            dt == 0xE ==> count * chans <= pl * 8,
            dt != 0xE ==> count * (chans * bps) <= pl,
            chans >= 1,
            dt != 0xE ==> bps >= 1,
            pl <= 0xFFFF;
    let mut s: usize = 0;
    while s < count
        invariant
            s <= count,
            count <= 0xFFFF * 8,
            1 <= chans <= 64,
            chans == channels,
            pl == payload@.len(),
            pl <= 0xFFFF,
            dt < 0xF,
            dt == 0xE ==> count * chans <= pl * 8,
            dt != 0xE ==> spec_bytes_per_datatype(dt) == Some(bps) && 1 <= bps <= 8
                && count * (chans * bps) <= pl,
            out@.len() == s * chans,
            forall|s2: int, ch: int| 0 <= s2 < s && 0 <= ch < chans ==> {
                let v = #[trigger] out@[s2 * chans + ch];
                let ts = sample_ts(base, period, s2);
                if dt == 0xE {
                    bool_value_ok(v, payload@, chans as int, s2, ch, ts)
                } else {
                    numeric_value_ok(v, dt, payload@, chans as int, s2, ch, ts)
                }
            },
        decreases count - s,
    {
        let ts = compute_sample_ts(base, period, s);
        let mut ch: usize = 0;
        let ghost before = out@;
        while ch < chans
            invariant
                s < count,
                count <= 0xFFFF * 8,
                1 <= chans <= 64,
                chans == channels,
                pl == payload@.len(),
                pl <= 0xFFFF,
                dt < 0xF,
                dt == 0xE ==> count * chans <= pl * 8,
                dt != 0xE ==> spec_bytes_per_datatype(dt) == Some(bps) && 1 <= bps <= 8
                    && count * (chans * bps) <= pl,
                ts == sample_ts(base, period, s as int),
                ch <= chans,
                out@.len() == s * chans + ch,
                before.len() == s * chans,
                forall|j: int| 0 <= j < before.len() ==> out@[j] == before[j],
                forall|c: int| 0 <= c < ch ==> {
                    let v = #[trigger] out@[s * chans + c];
                    if dt == 0xE {
                        bool_value_ok(v, payload@, chans as int, s as int, c, ts)
                    } else {
                        numeric_value_ok(v, dt, payload@, chans as int, s as int, c, ts)
                    }
                },
            decreases chans - ch,
        {
            let id = channel_id_string(ch);
            let v = if dt == 0xE {
                assert(s * chans + ch < count * chans) by (nonlinear_arith)
                    requires s < count, ch < chans;
                assert(s * chans <= 0xFFFF * 8);
                let bit_idx = s * chans + ch;
                let byte = payload[bit_idx / 8];
                let bit = (byte >> ((7 - bit_idx % 8) as u8)) & 1u8;
                Value { id, timestamp: ts, value_type: ValueType::Boolean, value_payload: vec![bit] }
            } else {
                assert(chans * bps <= 512) by (nonlinear_arith)
                    requires chans <= 64, bps <= 8;
                let row = chans * bps;
                assert(s * row + ch * bps + bps <= count * row) by (nonlinear_arith)
                    requires row == chans * bps, s < count, ch < chans, bps >= 1;
                let off = s * row + ch * bps;
                let p = numeric_payload(dt, payload, off, bps);
                Value { id, timestamp: ts, value_type: value_type_of(dt), value_payload: p }
            };
            out.push(v);
            ch = ch + 1;
            proof {
                if dt == 0xE {
                    assert(out@.last().value_payload@ =~= seq![packed_bit(payload@, s * chans + (ch - 1))]);
                }
            }
        }
        proof {
            assert forall|s2: int, c: int| 0 <= s2 < s + 1 && 0 <= c < chans implies {
                let v = #[trigger] out@[s2 * chans + c];
                let ts2 = sample_ts(base, period, s2);
                if dt == 0xE {
                    bool_value_ok(v, payload@, chans as int, s2, c, ts2)
                } else {
                    numeric_value_ok(v, dt, payload@, chans as int, s2, c, ts2)
                }
            } by {
                if s2 < s {
                    assert(s2 * chans + c < s * chans) by (nonlinear_arith)
                        requires s2 < s, c < chans, s2 >= 0;
                    assert(out@[s2 * chans + c] == before[s2 * chans + c]);
                }
            }
            assert((s + 1) * chans == s * chans + chans) by (nonlinear_arith);
        }
        s = s + 1;
    }
    out
}

} // verus!
