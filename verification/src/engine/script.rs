use vstd::prelude::*;
use vstd::string::StringSliceAdditionalSpecFns;
use vstd::utf8::encode_utf8;
use crate::engine::log::LogLevel;
use crate::message::{Message, PayloadType};
use crate::text::{str_chars, string_from_chars};
use crate::util::bytes_equal;

verus! {

/// The level name "debug".
pub open spec fn level_debug() -> Seq<u8> {
    seq![0x64u8, 0x65u8, 0x62u8, 0x75u8, 0x67u8]
}

pub fn level_debug_bytes() -> (v: Vec<u8>)
    ensures
        v@ == level_debug(),
{
    let v = vec![0x64u8, 0x65u8, 0x62u8, 0x75u8, 0x67u8];
    assert(v@ =~= level_debug());
    v
}

/// The level name "warn".
pub open spec fn level_warn() -> Seq<u8> {
    seq![0x77u8, 0x61u8, 0x72u8, 0x6Eu8]
}

pub fn level_warn_bytes() -> (v: Vec<u8>)
    ensures
        v@ == level_warn(),
{
    let v = vec![0x77u8, 0x61u8, 0x72u8, 0x6Eu8];
    assert(v@ =~= level_warn());
    v
}

/// The level name "error".
pub open spec fn level_error() -> Seq<u8> {
    seq![0x65u8, 0x72u8, 0x72u8, 0x6Fu8, 0x72u8]
}

pub fn level_error_bytes() -> (v: Vec<u8>)
    ensures
        v@ == level_error(),
{
    let v = vec![0x65u8, 0x72u8, 0x72u8, 0x6Fu8, 0x72u8];
    assert(v@ =~= level_error());
    v
}

/// The level a script names: "debug", "warn" and "error" name theirs; no name or any other
/// name is info.
pub open spec fn script_log_level(level: Option<String>) -> LogLevel {
    match level {
        Some(l) => {
            let b = encode_utf8(l@);
            if b == level_debug() {
                LogLevel::Debug
            } else if b == level_warn() {
                LogLevel::Warning
            } else if b == level_error() {
                LogLevel::Error
            } else {
                LogLevel::Info
            }
        },
        None => LogLevel::Info,
    }
}

/// The text a script logs: "[Lua] " and its message, or "<nil>" when it gave none.
pub open spec fn script_log_text(message: Option<String>) -> Seq<char> {
    seq!['[', 'L', 'u', 'a', ']', ' '] + match message {
        Some(m) => m@,
        None => seq!['<', 'n', 'i', 'l', '>'],
    }
}

/// What a script's `log(level, message)` call logs.
pub fn script_log_entry(level: Option<String>, message: Option<String>) -> (r: (LogLevel, String))
    ensures
        r.0 == script_log_level(level),
        r.1@ == script_log_text(message),
{
    let lv = match &level {
        Some(l) => {
            let b = l.as_str().as_bytes();
            let d = level_debug_bytes();
            let w = level_warn_bytes();
            let e = level_error_bytes();
            if bytes_equal(b, d.as_slice()) {
                LogLevel::Debug
            } else if bytes_equal(b, w.as_slice()) {
                LogLevel::Warning
            } else if bytes_equal(b, e.as_slice()) {
                LogLevel::Error
            } else {
                LogLevel::Info
            }
        },
        None => LogLevel::Info,
    };
    let mut cs: Vec<char> = vec!['[', 'L', 'u', 'a', ']', ' '];
    let mut body = match &message {
        Some(m) => str_chars(m.as_str()),
        None => vec!['<', 'n', 'i', 'l', '>'],
    };
    cs.append(&mut body);
    assert(cs@ =~= script_log_text(message));
    (lv, string_from_chars(cs.as_slice()))
}

/// What a script's `send_after(payload, delay_ms, connection_id)` call sends, at time
/// `now_us`: nothing for a nil payload (the call is refused); otherwise a binary message for
/// the connection (0 when none is named), due `delay_ms` milliseconds from now.
pub fn send_after_message(payload: Option<Vec<u8>>, delay_ms: u64, connection_id: Option<u32>, now_us: u64)
    -> (r: Option<Message>)
    requires
        now_us + delay_ms * 1000 <= u64::MAX,
    ensures
        payload is None ==> r is None,
        payload matches Some(p) ==> (r matches Some(m) && sent_after(m, p@, delay_ms, connection_id, now_us)),
{
    let bytes = match payload {
        Some(p) => p,
        None => {
            return None;
        },
    };
    let id = match connection_id {
        Some(c) => c,
        None => 0,
    };
    let mut timestamp = now_us;
    if delay_ms > 0 {
        timestamp = timestamp + delay_ms * 1000;
    }
    Some(Message::tx(id, PayloadType::Binary, bytes, Vec::new(), timestamp))
}

/// Whether `m` is the message a `send_after` call with `payload` sends.
pub open spec fn sent_after(m: Message, payload: Seq<u8>, delay_ms: u64, connection_id: Option<u32>, now_us: u64) -> bool {
    &&& m.message_type == crate::message::MessageType::Tx
    &&& m.connection_id == match connection_id { Some(c) => c, None => 0u32 }
    &&& m.timestamp == now_us + delay_ms * 1000
    &&& m.payload_type == PayloadType::Binary
    &&& m.payload@ == payload
    &&& m.frame@.len() == 0
    &&& m.values@.len() == 0 && m.metadata@.len() == 0 && m.contents@.len() == 0 && m.hex_contents@.len() == 0
    &&& !m.highlighted && !m.display_hex
}

/// The setting of connection `connection_id` in a per-connection list, empty when the list
/// has no such connection (what `get_transport` and `get_codec` answer a script).
pub fn connection_setting(settings: &Vec<String>, connection_id: u32) -> (r: String)
    ensures
        r@ == if (connection_id as int) < settings@.len() { settings@[connection_id as int]@ } else { Seq::<char>::empty() },
{
    let i = connection_id as usize;
    if i < settings.len() {
        settings[i].clone()
    } else {
        String::new()
    }
}

} // verus!
