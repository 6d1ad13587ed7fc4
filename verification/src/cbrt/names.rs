use vstd::prelude::*;

verus! {

/// The metadata key "cbrt_datatype".
pub open spec fn key_datatype() -> Seq<u8> {
    seq![0x63u8, 0x62u8, 0x72u8, 0x74u8, 0x5Fu8, 0x64u8, 0x61u8, 0x74u8, 0x61u8, 0x74u8, 0x79u8, 0x70u8, 0x65u8]
}

pub fn key_datatype_bytes() -> (v: Vec<u8>)
    ensures
        v@ == key_datatype(),
{
    let v = vec![0x63u8, 0x62u8, 0x72u8, 0x74u8, 0x5Fu8, 0x64u8, 0x61u8, 0x74u8, 0x61u8, 0x74u8, 0x79u8, 0x70u8, 0x65u8];
    assert(v@ =~= key_datatype());
    v
}

/// The metadata key "cbrt_channels".
pub open spec fn key_channels() -> Seq<u8> {
    seq![0x63u8, 0x62u8, 0x72u8, 0x74u8, 0x5Fu8, 0x63u8, 0x68u8, 0x61u8, 0x6Eu8, 0x6Eu8, 0x65u8, 0x6Cu8, 0x73u8]
}

pub fn key_channels_bytes() -> (v: Vec<u8>)
    ensures
        v@ == key_channels(),
{
    let v = vec![0x63u8, 0x62u8, 0x72u8, 0x74u8, 0x5Fu8, 0x63u8, 0x68u8, 0x61u8, 0x6Eu8, 0x6Eu8, 0x65u8, 0x6Cu8, 0x73u8];
    assert(v@ =~= key_channels());
    v
}

/// The metadata key "cbrt_sample_count".
pub open spec fn key_samples() -> Seq<u8> {
    seq![0x63u8, 0x62u8, 0x72u8, 0x74u8, 0x5Fu8, 0x73u8, 0x61u8, 0x6Du8, 0x70u8, 0x6Cu8, 0x65u8, 0x5Fu8, 0x63u8, 0x6Fu8, 0x75u8, 0x6Eu8, 0x74u8]
}

pub fn key_samples_bytes() -> (v: Vec<u8>)
    ensures
        v@ == key_samples(),
{
    let v = vec![0x63u8, 0x62u8, 0x72u8, 0x74u8, 0x5Fu8, 0x73u8, 0x61u8, 0x6Du8, 0x70u8, 0x6Cu8, 0x65u8, 0x5Fu8, 0x63u8, 0x6Fu8, 0x75u8, 0x6Eu8, 0x74u8];
    assert(v@ =~= key_samples());
    v
}

/// The metadata key "cbrt_seq".
pub open spec fn key_seq() -> Seq<u8> {
    seq![0x63u8, 0x62u8, 0x72u8, 0x74u8, 0x5Fu8, 0x73u8, 0x65u8, 0x71u8]
}

pub fn key_seq_bytes() -> (v: Vec<u8>)
    ensures
        v@ == key_seq(),
{
    let v = vec![0x63u8, 0x62u8, 0x72u8, 0x74u8, 0x5Fu8, 0x73u8, 0x65u8, 0x71u8];
    assert(v@ =~= key_seq());
    v
}

/// The metadata key "cbrt_ts_us".
pub open spec fn key_ts() -> Seq<u8> {
    seq![0x63u8, 0x62u8, 0x72u8, 0x74u8, 0x5Fu8, 0x74u8, 0x73u8, 0x5Fu8, 0x75u8, 0x73u8]
}

pub fn key_ts_bytes() -> (v: Vec<u8>)
    ensures
        v@ == key_ts(),
{
    let v = vec![0x63u8, 0x62u8, 0x72u8, 0x74u8, 0x5Fu8, 0x74u8, 0x73u8, 0x5Fu8, 0x75u8, 0x73u8];
    assert(v@ =~= key_ts());
    v
}

/// The metadata key "cbrt_period_us".
pub open spec fn key_period() -> Seq<u8> {
    seq![0x63u8, 0x62u8, 0x72u8, 0x74u8, 0x5Fu8, 0x70u8, 0x65u8, 0x72u8, 0x69u8, 0x6Fu8, 0x64u8, 0x5Fu8, 0x75u8, 0x73u8]
}

pub fn key_period_bytes() -> (v: Vec<u8>)
    ensures
        v@ == key_period(),
{
    let v = vec![0x63u8, 0x62u8, 0x72u8, 0x74u8, 0x5Fu8, 0x70u8, 0x65u8, 0x72u8, 0x69u8, 0x6Fu8, 0x64u8, 0x5Fu8, 0x75u8, 0x73u8];
    assert(v@ =~= key_period());
    v
}

/// The metadata key "cbrt_session_start".
pub open spec fn key_start() -> Seq<u8> {
    seq![0x63u8, 0x62u8, 0x72u8, 0x74u8, 0x5Fu8, 0x73u8, 0x65u8, 0x73u8, 0x73u8, 0x69u8, 0x6Fu8, 0x6Eu8, 0x5Fu8, 0x73u8, 0x74u8, 0x61u8, 0x72u8, 0x74u8]
}

pub fn key_start_bytes() -> (v: Vec<u8>)
    ensures
        v@ == key_start(),
{
    let v = vec![0x63u8, 0x62u8, 0x72u8, 0x74u8, 0x5Fu8, 0x73u8, 0x65u8, 0x73u8, 0x73u8, 0x69u8, 0x6Fu8, 0x6Eu8, 0x5Fu8, 0x73u8, 0x74u8, 0x61u8, 0x72u8, 0x74u8];
    assert(v@ =~= key_start());
    v
}

/// The metadata key "cbrt_seq_dropped".
pub open spec fn key_dropped() -> Seq<u8> {
    seq![0x63u8, 0x62u8, 0x72u8, 0x74u8, 0x5Fu8, 0x73u8, 0x65u8, 0x71u8, 0x5Fu8, 0x64u8, 0x72u8, 0x6Fu8, 0x70u8, 0x70u8, 0x65u8, 0x64u8]
}

pub fn key_dropped_bytes() -> (v: Vec<u8>)
    ensures
        v@ == key_dropped(),
{
    let v = vec![0x63u8, 0x62u8, 0x72u8, 0x74u8, 0x5Fu8, 0x73u8, 0x65u8, 0x71u8, 0x5Fu8, 0x64u8, 0x72u8, 0x6Fu8, 0x70u8, 0x70u8, 0x65u8, 0x64u8];
    assert(v@ =~= key_dropped());
    v
}

/// The metadata key "cbrt_seq_duplicate".
pub open spec fn key_dup() -> Seq<u8> {
    seq![0x63u8, 0x62u8, 0x72u8, 0x74u8, 0x5Fu8, 0x73u8, 0x65u8, 0x71u8, 0x5Fu8, 0x64u8, 0x75u8, 0x70u8, 0x6Cu8, 0x69u8, 0x63u8, 0x61u8, 0x74u8, 0x65u8]
}

pub fn key_dup_bytes() -> (v: Vec<u8>)
    ensures
        v@ == key_dup(),
{
    let v = vec![0x63u8, 0x62u8, 0x72u8, 0x74u8, 0x5Fu8, 0x73u8, 0x65u8, 0x71u8, 0x5Fu8, 0x64u8, 0x75u8, 0x70u8, 0x6Cu8, 0x69u8, 0x63u8, 0x61u8, 0x74u8, 0x65u8];
    assert(v@ =~= key_dup());
    v
}

/// The name of a datatype code.
pub open spec fn datatype_name(dt: u8) -> Seq<u8> {
    if dt == 0 {
        seq![0x75u8, 0x38u8]
    } else if dt == 1 {
        seq![0x69u8, 0x38u8]
    } else if dt == 2 {
        seq![0x75u8, 0x31u8, 0x36u8]
    } else if dt == 3 {
        seq![0x69u8, 0x31u8, 0x36u8]
    } else if dt == 4 {
        seq![0x75u8, 0x33u8, 0x32u8]
    } else if dt == 5 {
        seq![0x69u8, 0x33u8, 0x32u8]
    } else if dt == 6 {
        seq![0x75u8, 0x36u8, 0x34u8]
    } else if dt == 7 {
        seq![0x69u8, 0x36u8, 0x34u8]
    } else if dt == 8 {
        seq![0x66u8, 0x33u8, 0x32u8]
    } else if dt == 9 {
        seq![0x66u8, 0x36u8, 0x34u8]
    } else if dt == 10 {
        seq![0x71u8, 0x31u8, 0x35u8]
    } else if dt == 11 {
        seq![0x71u8, 0x33u8, 0x31u8]
    } else if dt == 12 {
        seq![0x62u8, 0x66u8, 0x31u8, 0x36u8]
    } else if dt == 13 {
        seq![0x66u8, 0x31u8, 0x36u8]
    } else if dt == 14 {
        seq![0x62u8, 0x6Fu8, 0x6Fu8, 0x6Cu8]
    } else {
        seq![0x75u8, 0x6Eu8, 0x6Bu8, 0x6Eu8, 0x6Fu8, 0x77u8, 0x6Eu8]
    }
}

pub fn datatype_name_bytes(dt: u8) -> (v: Vec<u8>)
    ensures
        v@ == datatype_name(dt),
{
    if dt == 0 {
        let v = vec![0x75u8, 0x38u8];
        assert(v@ =~= datatype_name(dt));
        v
    } else if dt == 1 {
        let v = vec![0x69u8, 0x38u8];
        assert(v@ =~= datatype_name(dt));
        v
    } else if dt == 2 {
        let v = vec![0x75u8, 0x31u8, 0x36u8];
        assert(v@ =~= datatype_name(dt));
        v
    } else if dt == 3 {
        let v = vec![0x69u8, 0x31u8, 0x36u8];
        assert(v@ =~= datatype_name(dt));
        v
    } else if dt == 4 {
        let v = vec![0x75u8, 0x33u8, 0x32u8];
        assert(v@ =~= datatype_name(dt));
        v
    } else if dt == 5 {
        let v = vec![0x69u8, 0x33u8, 0x32u8];
        assert(v@ =~= datatype_name(dt));
        v
    } else if dt == 6 {
        let v = vec![0x75u8, 0x36u8, 0x34u8];
        assert(v@ =~= datatype_name(dt));
        v
    } else if dt == 7 {
        let v = vec![0x69u8, 0x36u8, 0x34u8];
        assert(v@ =~= datatype_name(dt));
        v
    } else if dt == 8 {
        let v = vec![0x66u8, 0x33u8, 0x32u8];
        assert(v@ =~= datatype_name(dt));
        v
    } else if dt == 9 {
        let v = vec![0x66u8, 0x36u8, 0x34u8];
        assert(v@ =~= datatype_name(dt));
        v
    } else if dt == 10 {
        let v = vec![0x71u8, 0x31u8, 0x35u8];
        assert(v@ =~= datatype_name(dt));
        v
    } else if dt == 11 {
        let v = vec![0x71u8, 0x33u8, 0x31u8];
        assert(v@ =~= datatype_name(dt));
        v
    } else if dt == 12 {
        let v = vec![0x62u8, 0x66u8, 0x31u8, 0x36u8];
        assert(v@ =~= datatype_name(dt));
        v
    } else if dt == 13 {
        let v = vec![0x66u8, 0x31u8, 0x36u8];
        assert(v@ =~= datatype_name(dt));
        v
    } else if dt == 14 {
        let v = vec![0x62u8, 0x6Fu8, 0x6Fu8, 0x6Cu8];
        assert(v@ =~= datatype_name(dt));
        v
    } else {
        let v = vec![0x75u8, 0x6Eu8, 0x6Bu8, 0x6Eu8, 0x6Fu8, 0x77u8, 0x6Eu8];
        assert(v@ =~= datatype_name(dt));
        v
    }
}

/// The content label "Sync".
pub open spec fn label_sync() -> Seq<u8> {
    seq![0x53u8, 0x79u8, 0x6Eu8, 0x63u8]
}

pub fn label_sync_bytes() -> (v: Vec<u8>)
    ensures
        v@ == label_sync(),
{
    let v = vec![0x53u8, 0x79u8, 0x6Eu8, 0x63u8];
    assert(v@ =~= label_sync());
    v
}

/// The content label "FD".
pub open spec fn label_fd() -> Seq<u8> {
    seq![0x46u8, 0x44u8]
}

pub fn label_fd_bytes() -> (v: Vec<u8>)
    ensures
        v@ == label_fd(),
{
    let v = vec![0x46u8, 0x44u8];
    assert(v@ =~= label_fd());
    v
}

/// The content label "CH".
pub open spec fn label_ch() -> Seq<u8> {
    seq![0x43u8, 0x48u8]
}

pub fn label_ch_bytes() -> (v: Vec<u8>)
    ensures
        v@ == label_ch(),
{
    let v = vec![0x43u8, 0x48u8];
    assert(v@ =~= label_ch());
    v
}

/// The content label "Seq".
pub open spec fn label_seq() -> Seq<u8> {
    seq![0x53u8, 0x65u8, 0x71u8]
}

pub fn label_seq_bytes() -> (v: Vec<u8>)
    ensures
        v@ == label_seq(),
{
    let v = vec![0x53u8, 0x65u8, 0x71u8];
    assert(v@ =~= label_seq());
    v
}

/// The content label "Timestamp us".
pub open spec fn label_ts() -> Seq<u8> {
    seq![0x54u8, 0x69u8, 0x6Du8, 0x65u8, 0x73u8, 0x74u8, 0x61u8, 0x6Du8, 0x70u8, 0x20u8, 0x75u8, 0x73u8]
}

pub fn label_ts_bytes() -> (v: Vec<u8>)
    ensures
        v@ == label_ts(),
{
    let v = vec![0x54u8, 0x69u8, 0x6Du8, 0x65u8, 0x73u8, 0x74u8, 0x61u8, 0x6Du8, 0x70u8, 0x20u8, 0x75u8, 0x73u8];
    assert(v@ =~= label_ts());
    v
}

/// The content label "Period us".
pub open spec fn label_period() -> Seq<u8> {
    seq![0x50u8, 0x65u8, 0x72u8, 0x69u8, 0x6Fu8, 0x64u8, 0x20u8, 0x75u8, 0x73u8]
}

pub fn label_period_bytes() -> (v: Vec<u8>)
    ensures
        v@ == label_period(),
{
    let v = vec![0x50u8, 0x65u8, 0x72u8, 0x69u8, 0x6Fu8, 0x64u8, 0x20u8, 0x75u8, 0x73u8];
    assert(v@ =~= label_period());
    v
}

/// The content label "Len".
pub open spec fn label_len() -> Seq<u8> {
    seq![0x4Cu8, 0x65u8, 0x6Eu8]
}

pub fn label_len_bytes() -> (v: Vec<u8>)
    ensures
        v@ == label_len(),
{
    let v = vec![0x4Cu8, 0x65u8, 0x6Eu8];
    assert(v@ =~= label_len());
    v
}

/// The content label "Payload".
pub open spec fn label_payload() -> Seq<u8> {
    seq![0x50u8, 0x61u8, 0x79u8, 0x6Cu8, 0x6Fu8, 0x61u8, 0x64u8]
}

pub fn label_payload_bytes() -> (v: Vec<u8>)
    ensures
        v@ == label_payload(),
{
    let v = vec![0x50u8, 0x61u8, 0x79u8, 0x6Cu8, 0x6Fu8, 0x61u8, 0x64u8];
    assert(v@ =~= label_payload());
    v
}

/// The content label "CRC-16".
pub open spec fn label_crc() -> Seq<u8> {
    seq![0x43u8, 0x52u8, 0x43u8, 0x2Du8, 0x31u8, 0x36u8]
}

pub fn label_crc_bytes() -> (v: Vec<u8>)
    ensures
        v@ == label_crc(),
{
    let v = vec![0x43u8, 0x52u8, 0x43u8, 0x2Du8, 0x31u8, 0x36u8];
    assert(v@ =~= label_crc());
    v
}

} // verus!
