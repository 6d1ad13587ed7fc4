use vstd::prelude::*;

verus! {

/// How a message's payload is meant to be read.
#[derive(Debug, Clone, Copy, PartialEq, Eq, Structural)]
pub enum PayloadType {
    Binary,
    Text,
}

/// Direction or role of a message in the pipeline.
#[derive(Debug, Clone, Copy, PartialEq, Eq, Structural)]
pub enum MessageType {
    Rx,
    Tx,
    RawRx,
    Log,
    Event,
}

/// The type a value's little-endian payload bytes encode.
#[derive(Debug, Clone, Copy, PartialEq, Eq, Structural)]
pub enum ValueType {
    UInt8,
    Int8,
    UInt16,
    Int16,
    UInt32,
    Int32,
    UInt64,
    Int64,
    Float32,
    Float64,
    Boolean,
    String,
}

/// A typed, timestamped value extracted from a message.
#[derive(Debug, Clone)]
pub struct Value {
    pub id: String,
    pub timestamp: u64,
    pub value_type: ValueType,
    pub value_payload: Vec<u8>,
}

/// Display colors of the UI palette.
#[derive(Debug, Clone, Copy, PartialEq, Eq, Structural)]
pub enum Color {
    OnSurface,
    OnSurfaceVariant,
    Primary,
    Secondary,
    Tertiary,
    Error,
    OutlineVariant,
    Transparent,
}

/// Text styling of a content node.
#[derive(Debug, Clone, Copy, PartialEq, Eq, Structural)]
pub struct Decoration {
    pub color: Color,
    pub background: Color,
    pub bold: bool,
    pub italic: bool,
    pub underline: bool,
    pub strikethrough: bool,
}

/// The role a content node plays in the rendered message.
#[derive(Debug, Clone, Copy, PartialEq, Eq, Structural)]
pub enum ContentType {
    RichText,
    Header,
    LengthField,
    Data,
    Checksum,
    Address,
    Highlight,
    Separator,
    Styled,
}

/// One rendered piece of a message.
#[derive(Debug, Clone)]
pub struct Content {
    pub content_type: ContentType,
    pub decoration: Decoration,
    pub payload: Vec<u8>,
    pub label: Option<String>,
}

/// A message flowing through the pipeline.
#[derive(Debug, Clone)]
pub struct Message {
    pub message_type: MessageType,
    pub connection_id: u32,
    pub timestamp: u64,
    pub payload_type: PayloadType,
    pub payload: Vec<u8>,
    pub frame: Vec<u8>,
    pub values: Vec<Value>,
    pub metadata: Vec<Value>,
    pub contents: Vec<Content>,
    pub hex_contents: Vec<Content>,
    pub highlighted: bool,
    pub display_hex: bool,
}

/// The plain decoration: default color, no emphasis.
pub open spec fn spec_plain_decoration() -> Decoration {
    Decoration {
        color: Color::OnSurface,
        background: Color::Transparent,
        bold: false,
        italic: false,
        underline: false,
        strikethrough: false,
    }
}

pub fn plain_decoration() -> (d: Decoration)
    ensures
        d == spec_plain_decoration(),
{
    Decoration {
        color: Color::OnSurface,
        background: Color::Transparent,
        bold: false,
        italic: false,
        underline: false,
        strikethrough: false,
    }
}

/// A content node of the given role with plain decoration and no label.
pub fn content(content_type: ContentType, payload: Vec<u8>) -> (c: Content)
    ensures
        c.content_type == content_type,
        c.decoration == spec_plain_decoration(),
        c.payload@ == payload@,
        c.label is None,
{
    Content { content_type, decoration: plain_decoration(), payload, label: None }
}

/// Whether `m` is a fresh message of the given type, carrying `payload` and `frame` and
/// nothing else.
pub open spec fn is_fresh_message(
    m: Message,
    message_type: MessageType,
    payload_type: PayloadType,
    payload: Seq<u8>,
    frame: Seq<u8>,
    timestamp: u64,
) -> bool {
    &&& m.message_type == message_type
    &&& m.connection_id == 0
    &&& m.timestamp == timestamp
    &&& m.payload_type == payload_type
    &&& m.payload@ == payload
    &&& m.frame@ == frame
    &&& m.values@.len() == 0
    &&& m.metadata@.len() == 0
    &&& m.contents@.len() == 0
    &&& m.hex_contents@.len() == 0
    &&& !m.highlighted
    &&& !m.display_hex
}

impl Message {
    /// A received message carrying `payload` decoded from `frame`.
    pub fn rx(payload_type: PayloadType, payload: Vec<u8>, frame: Vec<u8>, timestamp: u64) -> (m: Message)
        ensures
            is_fresh_message(m, MessageType::Rx, payload_type, payload@, frame@, timestamp),
    {
        Message {
            message_type: MessageType::Rx,
            connection_id: 0,
            timestamp,
            payload_type,
            payload,
            frame,
            values: Vec::new(),
            metadata: Vec::new(),
            contents: Vec::new(),
            hex_contents: Vec::new(),
            highlighted: false,
            display_hex: false,
        }
    }

    /// A message to transmit on connection `connection_id`.
    pub fn tx(connection_id: u32, payload_type: PayloadType, payload: Vec<u8>, frame: Vec<u8>, timestamp: u64) -> (m: Message)
        ensures
            m.message_type == MessageType::Tx,
            m.connection_id == connection_id,
            m.timestamp == timestamp,
            m.payload_type == payload_type,
            m.payload@ == payload@,
            m.frame@ == frame@,
            m.values@.len() == 0,
            m.metadata@.len() == 0,
            m.contents@.len() == 0,
            m.hex_contents@.len() == 0,
            !m.highlighted,
            !m.display_hex,
    {
        Message {
            message_type: MessageType::Tx,
            connection_id,
            timestamp,
            payload_type,
            payload,
            frame,
            values: Vec::new(),
            metadata: Vec::new(),
            contents: Vec::new(),
            hex_contents: Vec::new(),
            highlighted: false,
            display_hex: false,
        }
    }
}

/// Microseconds since the Unix epoch, read from the system clock through `chrono`.
/// Nothing is promised of the value: it is the time of the call.

/// The first entry of `values` with identifier `key`.
pub open spec fn first_with_id(values: Seq<Value>, key: Seq<char>) -> Option<int> {
    if exists|i: int| 0 <= i < values.len() && (#[trigger] values[i]).id@ == key {
        let i = choose|i: int|
            0 <= i < values.len() && (#[trigger] values[i]).id@ == key && forall|j: int|
                0 <= j < i ==> (#[trigger] values[j]).id@ != key;
        Some(i)
    } else {
        None
    }
}

/// Finds the first entry of `values` whose identifier is `key`.
pub fn find_id(values: &Vec<Value>, key: &String) -> (r: Option<usize>)
    ensures
        match r {
            Some(i) => i < values@.len() && values@[i as int].id@ == key@
                && forall|j: int| 0 <= j < i ==> (#[trigger] values@[j]).id@ != key@,
            None => forall|j: int| 0 <= j < values@.len() ==> (#[trigger] values@[j]).id@ != key@,
        },
        r matches Some(i) ==> first_with_id(values@, key@) == Some(i as int),
        r is None ==> first_with_id(values@, key@) is None,
{
    let mut i: usize = 0;
    while i < values.len()
        invariant
            i <= values@.len(),
            forall|j: int| 0 <= j < i ==> (#[trigger] values@[j]).id@ != key@,
        decreases values.len() - i,
    {
        if values[i].id == *key {
            proof {
                let k = first_with_id(values@, key@);
                assert(values@[i as int].id@ == key@);
                let c = choose|c: int|
                    0 <= c < values@.len() && (#[trigger] values@[c]).id@ == key@ && forall|j: int|
                        0 <= j < c ==> (#[trigger] values@[j]).id@ != key@;
                if c < i {
                } else if c > i {
                    assert(values@[i as int].id@ != key@);
                }
            }
            return Some(i);
        }
        i = i + 1;
    }
    None
}

impl Value {
    /// The value as a `u8`, when it is one.
    pub fn as_u8(&self) -> (r: Option<u8>)
        ensures
            r == if self.value_type == ValueType::UInt8 && self.value_payload@.len() == 1 {
                Some(self.value_payload@[0])
            } else {
                None
            },
    {
        if self.value_type == ValueType::UInt8 && self.value_payload.len() == 1 {
            Some(self.value_payload[0])
        } else {
            None
        }
    }

    /// The value as a `bool`, when it is one.
    pub fn as_bool(&self) -> (r: Option<bool>)
        ensures
            r == if self.value_type == ValueType::Boolean && self.value_payload@.len() == 1 {
                Some(self.value_payload@[0] != 0)
            } else {
                None
            },
    {
        if self.value_type == ValueType::Boolean && self.value_payload.len() == 1 {
            Some(self.value_payload[0] != 0)
        } else {
            None
        }
    }

    /// The value as a `u16`, when it is one.
    pub fn as_u16(&self) -> (r: Option<u16>)
        ensures
            r == if self.value_type == ValueType::UInt16 && self.value_payload@.len() == 2 {
                Some((self.value_payload@[0] + 256 * self.value_payload@[1]) as u16)
            } else {
                None
            },
    {
        if self.value_type == ValueType::UInt16 && self.value_payload.len() == 2 {
            Some(self.value_payload[0] as u16 + (self.value_payload[1] as u16) * 256)
        } else {
            None
        }
    }

    /// The value as an `i16`, when it is one.
    pub fn as_i16(&self) -> (r: Option<i16>)
        ensures
            r == if self.value_type == ValueType::Int16 && self.value_payload@.len() == 2 {
                Some((self.value_payload@[0] + 256 * self.value_payload@[1]) as u16 as i16)
            } else {
                None
            },
    {
        if self.value_type == ValueType::Int16 && self.value_payload.len() == 2 {
            let u: u16 = self.value_payload[0] as u16 + (self.value_payload[1] as u16) * 256;
            Some(u as i16)
        } else {
            None
        }
    }

    /// The value as a `u32`, when it is one.
    pub fn as_u32(&self) -> (r: Option<u32>)
        ensures
            r == if self.value_type == ValueType::UInt32 && self.value_payload@.len() == 4 {
                Some(le_word(self.value_payload@, 4) as u32)
            } else {
                None
            },
    {
        if self.value_type == ValueType::UInt32 && self.value_payload.len() == 4 {
            let w = read_le_word(&self.value_payload, 4);
            Some(w as u32)
        } else {
            None
        }
    }

    /// The value as a `u64`, when it is one.
    pub fn as_u64(&self) -> (r: Option<u64>)
        ensures
            r == if self.value_type == ValueType::UInt64 && self.value_payload@.len() == 8 {
                Some(le_word(self.value_payload@, 8) as u64)
            } else {
                None
            },
    {
        if self.value_type == ValueType::UInt64 && self.value_payload.len() == 8 {
            Some(read_le_word(&self.value_payload, 8))
        } else {
            None
        }
    }

    /// The value as an `i64`, when it is one.
    pub fn as_i64(&self) -> (r: Option<i64>)
        ensures
            r == if self.value_type == ValueType::Int64 && self.value_payload@.len() == 8 {
                Some(le_word(self.value_payload@, 8) as u64 as i64)
            } else {
                None
            },
    {
        if self.value_type == ValueType::Int64 && self.value_payload.len() == 8 {
            Some(read_le_word(&self.value_payload, 8) as i64)
        } else {
            None
        }
    }
}

/// The little-endian number in the first `n` bytes.
pub open spec fn le_word(b: Seq<u8>, n: int) -> int
    decreases n,
{
    if n <= 0 { 0 } else { le_word(b, n - 1) + b[n - 1] * pow256(n - 1) }
}

/// 256 to the power `k`.
pub open spec fn pow256(k: int) -> int
    decreases k,
{
    if k <= 0 { 1 } else { 256 * pow256(k - 1) }
}

proof fn lemma_le_word_bound(b: Seq<u8>, n: int)
    requires
        0 <= n <= b.len(),
    ensures
        0 <= le_word(b, n) < pow256(n),
    decreases n,
{
    if n > 0 {
        lemma_le_word_bound(b, n - 1);
        let x = b[n - 1] as int;
        let p = pow256(n - 1);
        let w = le_word(b, n - 1);
        assert(0 <= w + x * p < 256 * p) by (nonlinear_arith)
            requires
                0 <= w < p,
                0 <= x < 256,
                1 <= p,
        ;
    }
}

proof fn lemma_pow256_pos(k: int)
    ensures
        pow256(k) >= 1,
    decreases k,
{
    if k > 0 {
        lemma_pow256_pos(k - 1);
    }
}

/// Reads a little-endian word of up to eight bytes.
fn read_le_word(b: &Vec<u8>, n: usize) -> (w: u64)
    requires
        n <= 8,
        n <= b@.len(),
    ensures
        w == le_word(b@, n as int),
{
    let mut w: u64 = 0;
    let mut p: u64 = 1;
    let mut i: usize = 0;
    assert(pow256(0) == 1);
    assert(le_word(b@, 0) == 0);
    while i < n
        invariant
            i <= n <= 8,
            n <= b@.len(),
            w == le_word(b@, i as int),
            i < 8 ==> p == pow256(i as int),
        decreases n - i,
    {
        proof {
            lemma_le_word_bound(b@, i as int);
            lemma_pow256_pos(i as int);
            reveal_with_fuel(pow256, 9);
            assert(pow256(7) == 0x100000000000000);
            assert(pow256(8) == 0x10000000000000000);
            lemma_pow_mono(i as int, 7);
        }
        let x = b[i] as u64;
        assert(w + x * p < pow256(i + 1)) by (nonlinear_arith)
            requires
                0 <= w < p,
                x < 256,
                pow256(i + 1) == 256 * p,
        ;
        proof {
            lemma_pow_mono(i + 1, 8);
        }
        w = w + x * p;
        if i + 1 < 8 {
            proof { lemma_pow_mono(i + 1, 7); }
            p = p * 256;
        }
        i = i + 1;
    }
    w
}

proof fn lemma_pow_mono(i: int, j: int)
    requires
        0 <= i <= j,
    ensures
        pow256(i) <= pow256(j),
    decreases j - i,
{
    if i < j {
        lemma_pow_mono(i, j - 1);
        lemma_pow256_pos(j - 1);
    }
}

impl Message {
    /// The first metadata entry named `key`.
    pub fn metadata_value(&self, key: &str) -> (r: Option<&Value>)
        ensures
            match first_with_id(self.metadata@, key@) {
                Some(i) => r == Some(&self.metadata@[i]),
                None => r is None,
            },
    {
        let k = key.to_owned();
        match find_id(&self.metadata, &k) {
            Some(i) => Some(&self.metadata[i]),
            None => None,
        }
    }
}

/// `chrono::Utc::now().timestamp_micros()`: the wall-clock time in microseconds since the Unix
/// epoch, read as a `u64`. Nothing is promised of it: it is a clock reading.
#[verifier::external_body]
pub(crate) fn current_timestamp() -> u64 {
    chrono::Utc::now().timestamp_micros() as u64
}

} // verus!
