use vstd::prelude::*;
use vstd::string::StringSliceAdditionalSpecFns;
use vstd::utf8::encode_utf8;
use crate::codec::cobs::CobsCodec;
use crate::codec::line::{crlf_name, LineCodec, LineEnding};
use crate::codec::passthrough::PassthroughCodec;
use crate::codec::slip::SlipCodec;
use crate::codec::timeout::TimeoutCodec;
use crate::transform::csv::CsvTransformer;
use crate::transform::disable::DisableTransformer;
use crate::transform::json::JsonTransformer;
use crate::util::bytes_equal;

verus! {

/// The id "timeout_codec".
pub open spec fn timeout_codec_id() -> Seq<u8> {
    seq![0x74u8, 0x69u8, 0x6Du8, 0x65u8, 0x6Fu8, 0x75u8, 0x74u8, 0x5Fu8, 0x63u8, 0x6Fu8, 0x64u8, 0x65u8, 0x63u8]
}

pub fn timeout_codec_id_bytes() -> (v: Vec<u8>)
    ensures
        v@ == timeout_codec_id(),
{
    let v = vec![0x74u8, 0x69u8, 0x6Du8, 0x65u8, 0x6Fu8, 0x75u8, 0x74u8, 0x5Fu8, 0x63u8, 0x6Fu8, 0x64u8, 0x65u8, 0x63u8];
    assert(v@ =~= timeout_codec_id());
    v
}

/// The id "line_codec".
pub open spec fn line_codec_id() -> Seq<u8> {
    seq![0x6Cu8, 0x69u8, 0x6Eu8, 0x65u8, 0x5Fu8, 0x63u8, 0x6Fu8, 0x64u8, 0x65u8, 0x63u8]
}

pub fn line_codec_id_bytes() -> (v: Vec<u8>)
    ensures
        v@ == line_codec_id(),
{
    let v = vec![0x6Cu8, 0x69u8, 0x6Eu8, 0x65u8, 0x5Fu8, 0x63u8, 0x6Fu8, 0x64u8, 0x65u8, 0x63u8];
    assert(v@ =~= line_codec_id());
    v
}

/// The id "cobs_codec".
pub open spec fn cobs_codec_id() -> Seq<u8> {
    seq![0x63u8, 0x6Fu8, 0x62u8, 0x73u8, 0x5Fu8, 0x63u8, 0x6Fu8, 0x64u8, 0x65u8, 0x63u8]
}

pub fn cobs_codec_id_bytes() -> (v: Vec<u8>)
    ensures
        v@ == cobs_codec_id(),
{
    let v = vec![0x63u8, 0x6Fu8, 0x62u8, 0x73u8, 0x5Fu8, 0x63u8, 0x6Fu8, 0x64u8, 0x65u8, 0x63u8];
    assert(v@ =~= cobs_codec_id());
    v
}

/// The id "slip_codec".
pub open spec fn slip_codec_id() -> Seq<u8> {
    seq![0x73u8, 0x6Cu8, 0x69u8, 0x70u8, 0x5Fu8, 0x63u8, 0x6Fu8, 0x64u8, 0x65u8, 0x63u8]
}

pub fn slip_codec_id_bytes() -> (v: Vec<u8>)
    ensures
        v@ == slip_codec_id(),
{
    let v = vec![0x73u8, 0x6Cu8, 0x69u8, 0x70u8, 0x5Fu8, 0x63u8, 0x6Fu8, 0x64u8, 0x65u8, 0x63u8];
    assert(v@ =~= slip_codec_id());
    v
}

/// The id "passthrough_codec".
pub open spec fn passthrough_codec_id() -> Seq<u8> {
    seq![0x70u8, 0x61u8, 0x73u8, 0x73u8, 0x74u8, 0x68u8, 0x72u8, 0x6Fu8, 0x75u8, 0x67u8, 0x68u8, 0x5Fu8, 0x63u8, 0x6Fu8, 0x64u8, 0x65u8, 0x63u8]
}

pub fn passthrough_codec_id_bytes() -> (v: Vec<u8>)
    ensures
        v@ == passthrough_codec_id(),
{
    let v = vec![0x70u8, 0x61u8, 0x73u8, 0x73u8, 0x74u8, 0x68u8, 0x72u8, 0x6Fu8, 0x75u8, 0x67u8, 0x68u8, 0x5Fu8, 0x63u8, 0x6Fu8, 0x64u8, 0x65u8, 0x63u8];
    assert(v@ =~= passthrough_codec_id());
    v
}

/// The id "csv_transformer".
pub open spec fn csv_transformer_id() -> Seq<u8> {
    seq![0x63u8, 0x73u8, 0x76u8, 0x5Fu8, 0x74u8, 0x72u8, 0x61u8, 0x6Eu8, 0x73u8, 0x66u8, 0x6Fu8, 0x72u8, 0x6Du8, 0x65u8, 0x72u8]
}

pub fn csv_transformer_id_bytes() -> (v: Vec<u8>)
    ensures
        v@ == csv_transformer_id(),
{
    let v = vec![0x63u8, 0x73u8, 0x76u8, 0x5Fu8, 0x74u8, 0x72u8, 0x61u8, 0x6Eu8, 0x73u8, 0x66u8, 0x6Fu8, 0x72u8, 0x6Du8, 0x65u8, 0x72u8];
    assert(v@ =~= csv_transformer_id());
    v
}

/// The id "json_transformer".
pub open spec fn json_transformer_id() -> Seq<u8> {
    seq![0x6Au8, 0x73u8, 0x6Fu8, 0x6Eu8, 0x5Fu8, 0x74u8, 0x72u8, 0x61u8, 0x6Eu8, 0x73u8, 0x66u8, 0x6Fu8, 0x72u8, 0x6Du8, 0x65u8, 0x72u8]
}

pub fn json_transformer_id_bytes() -> (v: Vec<u8>)
    ensures
        v@ == json_transformer_id(),
{
    let v = vec![0x6Au8, 0x73u8, 0x6Fu8, 0x6Eu8, 0x5Fu8, 0x74u8, 0x72u8, 0x61u8, 0x6Eu8, 0x73u8, 0x66u8, 0x6Fu8, 0x72u8, 0x6Du8, 0x65u8, 0x72u8];
    assert(v@ =~= json_transformer_id());
    v
}

/// A codec the runtime offers, configured.
pub enum RuntimeCodec {
    Timeout(TimeoutCodec),
    Line(LineCodec),
    Cobs(CobsCodec),
    Slip(SlipCodec),
    Passthrough(PassthroughCodec),
}

/// A transformer the runtime offers.
pub enum RuntimeTransformer {
    Disable(DisableTransformer),
    Csv(CsvTransformer),
    Json(JsonTransformer),
}

/// The configuration values the runtime's codecs read, each absent when not configured.
pub struct CodecSettings {
    /// The line codec's terminator name ("lf" or "crlf").
    pub line_ending: Option<String>,
    /// The timeout codec's receive timeout in milliseconds.
    pub receive_timeout_ms: Option<i64>,
    /// Whether the SLIP codec sends an `END` before each frame.
    pub slip_push_leading_end: Option<bool>,
}

/// The terminator a configured name selects: "crlf" is CR LF; no name, "lf" and anything
/// else is LF.
pub open spec fn configured_line_ending(name: Option<String>) -> LineEnding {
    match name {
        Some(n) => if encode_utf8(n@) == crlf_name() { LineEnding::CrLf } else { LineEnding::Lf },
        None => LineEnding::Lf,
    }
}

/// The codec that `id` names, configured by `s`: the timeout defaults to 50 ms (and is
/// truncated to 32 bits), SLIP pushes a leading `END` unless told otherwise, COBS delimits
/// with zero; an unknown id names none.
pub open spec fn configured_codec(id: Seq<u8>, s: CodecSettings) -> Option<RuntimeCodec> {
    if id == timeout_codec_id() {
        Some(RuntimeCodec::Timeout(TimeoutCodec {
            timeout_ms: match s.receive_timeout_ms { Some(t) => t as u32, None => 50 },
            frame_start: None,
        }))
    } else if id == line_codec_id() {
        Some(RuntimeCodec::Line(LineCodec { line_ending: configured_line_ending(s.line_ending) }))
    } else if id == cobs_codec_id() {
        Some(RuntimeCodec::Cobs(CobsCodec { sentinel: 0 }))
    } else if id == slip_codec_id() {
        Some(RuntimeCodec::Slip(SlipCodec {
            push_leading_end: match s.slip_push_leading_end { Some(b) => b, None => true },
        }))
    } else if id == passthrough_codec_id() {
        Some(RuntimeCodec::Passthrough(PassthroughCodec))
    } else {
        None
    }
}

/// The transformer that `id` names; an unknown id falls back to the one that changes nothing.
pub open spec fn configured_transformer(id: Seq<u8>) -> RuntimeTransformer {
    if id == csv_transformer_id() {
        RuntimeTransformer::Csv(CsvTransformer)
    } else if id == json_transformer_id() {
        RuntimeTransformer::Json(JsonTransformer)
    } else {
        RuntimeTransformer::Disable(DisableTransformer)
    }
}

/// The headless runtime's choice of codecs and transformers.
pub struct RuntimeRunMode;

impl RuntimeRunMode {
    pub fn new() -> RuntimeRunMode {
        RuntimeRunMode
    }

    /// The configured codec named `id`; `None` for an id the runtime does not support.
    pub fn create_codec(&self, id: &str, settings: &CodecSettings) -> (r: Option<RuntimeCodec>)
        ensures
            r == configured_codec(id.spec_bytes(), *settings),
    {
        let b = id.as_bytes();
        let t = timeout_codec_id_bytes();
        let l = line_codec_id_bytes();
        let c = cobs_codec_id_bytes();
        let s = slip_codec_id_bytes();
        let p = passthrough_codec_id_bytes();
        if bytes_equal(b, t.as_slice()) {
            let ms: u32 = match settings.receive_timeout_ms {
                Some(v) => v as u32,
                None => 50,
            };
            Some(RuntimeCodec::Timeout(TimeoutCodec::new(ms)))
        } else if bytes_equal(b, l.as_slice()) {
            let ending = match &settings.line_ending {
                Some(name) => LineEnding::new_from_str(name.as_str()),
                None => LineEnding::Lf,
            };
            Some(RuntimeCodec::Line(LineCodec::new(ending)))
        } else if bytes_equal(b, c.as_slice()) {
            Some(RuntimeCodec::Cobs(CobsCodec { sentinel: 0 }))
        } else if bytes_equal(b, s.as_slice()) {
            let push = match settings.slip_push_leading_end {
                Some(v) => v,
                None => true,
            };
            Some(RuntimeCodec::Slip(SlipCodec { push_leading_end: push }))
        } else if bytes_equal(b, p.as_slice()) {
            Some(RuntimeCodec::Passthrough(PassthroughCodec::new()))
        } else {
            None
        }
    }

    /// The transformer named `id`, the pass-through one for an unknown id.
    pub fn create_transformer(&self, id: &str) -> (r: RuntimeTransformer)
        ensures
            r == configured_transformer(id.spec_bytes()),
    {
        let b = id.as_bytes();
        let c = csv_transformer_id_bytes();
        let j = json_transformer_id_bytes();
        if bytes_equal(b, c.as_slice()) {
            RuntimeTransformer::Csv(CsvTransformer::new())
        } else if bytes_equal(b, j.as_slice()) {
            RuntimeTransformer::Json(JsonTransformer::new())
        } else {
            RuntimeTransformer::Disable(DisableTransformer::new())
        }
    }
}

} // verus!
