use vstd::prelude::*;
use crate::buffer::{buf_bytes, buf_len, buf_split_to, buf_to_vec, bytes_mut_contents};
use crate::error::CodecError;
use crate::message::{current_timestamp, is_fresh_message, Message, MessageType, PayloadType};
use crate::util::{copy_range, find_byte, first_index_of, lemma_delimiter_run, lemma_first_index_of, repeated};

verus! {

/// Frame delimiter.
pub const END: u8 = 0xC0;
/// Escape byte.
pub const ESC: u8 = 0xDB;
/// `END` after an escape.
pub const ESC_END: u8 = 0xDC;
/// `ESC` after an escape.
pub const ESC_ESC: u8 = 0xDD;

/// The escaped form of one byte.
pub open spec fn slip_escape_byte(b: u8) -> Seq<u8> {
    if b == END {
        seq![ESC, ESC_END]
    } else if b == ESC {
        seq![ESC, ESC_ESC]
    } else {
        seq![b]
    }
}

/// `data` with every `END` and `ESC` escaped.
pub open spec fn slip_escape(data: Seq<u8>) -> Seq<u8>
    decreases data.len(),
{
    if data.len() == 0 {
        seq![]
    } else {
        slip_escape_byte(data[0]) + slip_escape(data.skip(1))
    }
}

/// The SLIP frame of `data`: an optional leading `END`, the escaped bytes, a trailing `END`.
pub open spec fn slip_encoded(data: Seq<u8>, push_leading_end: bool) -> Seq<u8> {
    (if push_leading_end { seq![END] } else { seq![] }) + slip_escape(data) + seq![END]
}

/// Undoes the escaping of one frame's bytes (delimiter stripped), or names the first fault:
/// an escape at the end, an escape before anything but `ESC_END`/`ESC_ESC`, a bare `END`.
pub open spec fn slip_unescape(data: Seq<u8>) -> Result<Seq<u8>, CodecError>
    decreases data.len(),
{
    if data.len() == 0 {
        Ok(seq![])
    } else if data[0] == ESC {
        if data.len() < 2 {
            Err(CodecError::SlipEscapeAtEnd)
        } else if data[1] == ESC_END || data[1] == ESC_ESC {
            match slip_unescape(data.skip(2)) {
                Ok(t) => Ok(seq![if data[1] == ESC_END { END } else { ESC }] + t),
                Err(e) => Err(e),
            }
        } else {
            Err(CodecError::SlipBadEscape(data[1]))
        }
    } else if data[0] == END {
        Err(CodecError::SlipUnescapedEnd)
    } else {
        match slip_unescape(data.skip(1)) {
            Ok(t) => Ok(seq![data[0]] + t),
            Err(e) => Err(e),
        }
    }
}

/// Escaping distributes over concatenation.
pub proof fn lemma_slip_escape_concat(a: Seq<u8>, b: Seq<u8>)
    ensures
        slip_escape(a + b) == slip_escape(a) + slip_escape(b),
    decreases a.len(),
{
    if a.len() == 0 {
        assert(a + b =~= b);
    } else {
        lemma_slip_escape_concat(a.skip(1), b);
        assert((a + b).skip(1) =~= a.skip(1) + b);
        assert((a + b)[0] == a[0]);
    }
}

/// Escaped bytes never hold a bare `END`.
pub proof fn lemma_slip_escape_end_free(data: Seq<u8>)
    ensures
        forall|j: int| 0 <= j < slip_escape(data).len() ==> slip_escape(data)[j] != END,
    decreases data.len(),
{
    if data.len() > 0 {
        lemma_slip_escape_end_free(data.skip(1));
        let e = slip_escape(data);
        let h = slip_escape_byte(data[0]);
        assert forall|j: int| 0 <= j < e.len() implies e[j] != END by {
            if j >= h.len() {
                assert(e[j] == slip_escape(data.skip(1))[j - h.len()]);
            }
        }
    }
}

/// Unescaping the escaped form of `data` gives `data` back.
pub proof fn lemma_slip_roundtrip(data: Seq<u8>)
    ensures
        slip_unescape(slip_escape(data)) == Ok::<Seq<u8>, CodecError>(data),
    decreases data.len(),
{
    if data.len() == 0 {
        assert(data =~= Seq::<u8>::empty());
    } else {
        lemma_slip_roundtrip(data.skip(1));
        let e = slip_escape(data);
        let h = slip_escape_byte(data[0]);
        assert(e.skip(h.len() as int) =~= slip_escape(data.skip(1)));
        assert(seq![data[0]] + data.skip(1) =~= data);
        let t = slip_escape(data.skip(1));
        assert(e == h + t);
        if data[0] == END || data[0] == ESC {
            assert(e.skip(2) =~= t);
            assert(e[0] == ESC);
            assert(e.len() >= 2);
            assert(e[1] == if data[0] == END { ESC_END } else { ESC_ESC });
            assert(slip_unescape(e) == Ok::<Seq<u8>, CodecError>(seq![data[0]] + data.skip(1)));
        } else {
            assert(e.skip(1) =~= t);
            assert(e[0] == data[0]);
            assert(slip_unescape(e) == Ok::<Seq<u8>, CodecError>(seq![data[0]] + data.skip(1)));
        }
    }
}

/// A buffer holding exactly the SLIP frame of `payload` (no leading `END`) is one frame whose
/// bytes unescape to `payload`.
pub proof fn lemma_slip_frame_roundtrip(payload: Seq<u8>)
    ensures
        first_index_of(slip_encoded(payload, false), END) == Some(slip_escape(payload).len() as int),
        slip_encoded(payload, false).take(slip_escape(payload).len() as int) == slip_escape(payload),
        slip_encoded(payload, false).skip(slip_escape(payload).len() + 1int) == Seq::<u8>::empty(),
        slip_unescape(slip_escape(payload)) == Ok::<Seq<u8>, CodecError>(payload),
{
    let body = slip_escape(payload);
    let enc = slip_encoded(payload, false);
    lemma_slip_escape_end_free(payload);
    lemma_slip_roundtrip(payload);
    assert(enc =~= body + seq![END]);
    assert forall|j: int| 0 <= j < body.len() implies enc[j] != END by {
        assert(enc[j] == body[j]);
    }
    lemma_first_index_of(enc, END, body.len() as int);
    assert(enc.take(body.len() as int) =~= body);
    assert(enc.skip(body.len() + 1int) =~= Seq::<u8>::empty());
}

/// A SLIP stream of `j` stray `END`s, the frame of `payload`, and `t` more `END`s: the first
/// `j` decode steps meet an `END` at the front (empty frames, no message); then the frame is the
/// bytes up to its closing `END` and unescapes to `payload`; then `t` empty frames; then the
/// buffer is empty and decoding gives nothing.
pub proof fn lemma_slip_stream(j: nat, payload: Seq<u8>, t: nat)
    ensures
        ({
            let frame = slip_encoded(payload, false) + repeated(END, t);
            let k = slip_escape(payload).len() as int;
            &&& forall|i: int| 0 <= i < j ==> #[trigger] first_index_of((repeated(END, j) + frame).skip(i), END)
                == Some(0int)
            &&& (repeated(END, j) + frame).skip(j as int) == frame
            &&& first_index_of(frame, END) == Some(k)
            &&& slip_unescape(frame.take(k)) == Ok::<Seq<u8>, CodecError>(payload)
            &&& frame.skip(k + 1) == repeated(END, t)
            &&& forall|i: int| 0 <= i < t ==> #[trigger] first_index_of(repeated(END, t).skip(i), END) == Some(0int)
            &&& first_index_of(repeated(END, t).skip(t as int), END) is None
        }),
{
    let body = slip_escape(payload);
    let frame = slip_encoded(payload, false) + repeated(END, t);
    let k = body.len() as int;
    lemma_delimiter_run(END, j, frame);
    lemma_slip_escape_end_free(payload);
    lemma_slip_roundtrip(payload);
    assert(frame =~= body + seq![END] + repeated(END, t));
    assert forall|x: int| 0 <= x < k implies frame[x] != END by {
        assert(frame[x] == body[x]);
    }
    lemma_first_index_of(frame, END, k);
    assert(frame.take(k) =~= body);
    assert(frame.skip(k + 1) =~= repeated(END, t));
    lemma_delimiter_run(END, t, Seq::empty());
    assert(repeated(END, t) + Seq::<u8>::empty() =~= repeated(END, t));
    assert(repeated(END, t).skip(t as int) =~= Seq::<u8>::empty());
}

/// SLIP framing.
#[derive(Debug, Clone, Copy)]
pub struct SlipCodec {
    /// Whether an `END` byte goes before each frame to flush line noise.
    pub push_leading_end: bool,
}

impl SlipCodec {
    /// The default codec pushes a leading `END`.
    pub fn new() -> (c: SlipCodec)
        ensures
            c.push_leading_end,
    {
        SlipCodec { push_leading_end: true }
    }

    /// SLIP-encodes `data` into a frame.
    pub fn encode_slip(&self, data: &[u8]) -> (encoded: Vec<u8>)
        ensures
            encoded@ == slip_encoded(data@, self.push_leading_end),
    {
        let mut encoded: Vec<u8> = Vec::new();
        if self.push_leading_end {
            encoded.push(END);
        }
        let ghost lead = encoded@;
        let mut i: usize = 0;
        assert(data@.take(0) =~= Seq::<u8>::empty());
        assert(encoded@ =~= lead + slip_escape(data@.take(0)));
        while i < data.len()
            invariant
                i <= data@.len(),
                encoded@ == lead + slip_escape(data@.take(i as int)),
            decreases data.len() - i,
        {
            let byte = data[i];
            proof {
                lemma_slip_escape_concat(data@.take(i as int), seq![byte]);
                assert(data@.take(i as int) + seq![byte] =~= data@.take(i + 1));
                assert(slip_escape(seq![byte]) =~= slip_escape_byte(byte)) by {
                    assert(seq![byte].skip(1) =~= Seq::<u8>::empty());
                    assert(slip_escape(Seq::<u8>::empty()) == Seq::<u8>::empty());
                    assert(slip_escape(seq![byte]) == slip_escape_byte(byte) + slip_escape(seq![byte].skip(1)));
                    assert(slip_escape_byte(byte) + Seq::<u8>::empty() =~= slip_escape_byte(byte));
                }
            }
            if byte == END {
                encoded.push(ESC);
                encoded.push(ESC_END);
            } else if byte == ESC {
                encoded.push(ESC);
                encoded.push(ESC_ESC);
            } else {
                encoded.push(byte);
            }
            i = i + 1;
            assert(encoded@ =~= lead + slip_escape(data@.take(i as int)));
        }
        encoded.push(END);
        assert(data@.take(i as int) =~= data@);
        assert(encoded@ =~= slip_encoded(data@, self.push_leading_end));
        encoded
    }

    /// Undoes the escaping of one frame's bytes (delimiter stripped).
    pub fn decode_slip(&self, data: &[u8]) -> (r: Result<Vec<u8>, CodecError>)
        ensures
            match slip_unescape(data@) {
                Ok(d) => r matches Ok(v) && v@ == d,
                Err(e) => r matches Err(e2) && e2 == e,
            },
    {
        let mut decoded: Vec<u8> = Vec::new();
        let mut i: usize = 0;
        assert(data@.skip(0) =~= data@);
        while i < data.len()
            invariant
                i <= data@.len(),
                slip_unescape(data@) == match slip_unescape(data@.skip(i as int)) {
                    Ok(t) => Ok(decoded@ + t),
                    Err(e) => Err::<Seq<u8>, CodecError>(e),
                },
            decreases data.len() - i,
        {
            let ghost d = data@.skip(i as int);
            let ghost before = decoded@;
            let byte = data[i];
            assert(d[0] == byte);
            if byte == ESC {
                if i + 1 >= data.len() {
                    return Err(CodecError::SlipEscapeAtEnd);
                }
                let next_byte = data[i + 1];
                assert(d[1] == next_byte);
                assert(d.skip(2) =~= data@.skip(i + 2));
                if next_byte == ESC_END {
                    decoded.push(END);
                    i = i + 2;
                } else if next_byte == ESC_ESC {
                    decoded.push(ESC);
                    i = i + 2;
                } else {
                    return Err(CodecError::SlipBadEscape(next_byte));
                }
            } else if byte == END {
                return Err(CodecError::SlipUnescapedEnd);
            } else {
                decoded.push(byte);
                i = i + 1;
                assert(d.skip(1) =~= data@.skip(i as int));
            }
            proof {
                match slip_unescape(data@.skip(i as int)) {
                    Ok(t) => {
                        assert(before + (seq![decoded@.last()] + t) =~= decoded@ + t);
                    },
                    Err(e) => {},
                }
            }
        }
        assert(data@.skip(i as int) =~= Seq::<u8>::empty());
        assert(decoded@ + Seq::<u8>::empty() =~= decoded@);
        Ok(decoded)
    }

    /// Takes the next `END`-delimited frame off `src` and unescapes it. With no `END` in the
    /// buffer nothing is consumed; an empty frame (a bare `END`) is consumed and yields
    /// nothing.
    pub fn decode(&mut self, src: &mut bytes::BytesMut) -> (r: Result<Option<Message>, CodecError>)
        ensures
            *final(self) == *old(self),
            ({
                let c = bytes_mut_contents(*old(src));
                let f = bytes_mut_contents(*final(src));
                match first_index_of(c, END) {
                    None => f == c && r == Ok::<Option<Message>, CodecError>(None),
                    Some(k) => {
                        &&& f == c.skip(k + 1)
                        &&& k == 0 ==> r == Ok::<Option<Message>, CodecError>(None)
                        &&& k > 0 ==> match slip_unescape(c.take(k)) {
                            Err(e) => r matches Err(e2) && e2 == e,
                            Ok(p) => r matches Ok(Some(m)) && is_fresh_message(
                                m, MessageType::Rx, PayloadType::Binary, p, c.take(k + 1), m.timestamp),
                        }
                    },
                }
            }),
    {
        let len = buf_len(src);
        let index = find_byte(buf_bytes(src), END);
        match index {
            None => Ok(None),
            Some(index) => {
                let frame_buf = buf_split_to(src, index + 1);
                let frame = buf_to_vec(&frame_buf);
                if index == 0 {
                    return Ok(None);
                }
                let data = copy_range(frame.as_slice(), 0, index);
                proof {
                    let c = bytes_mut_contents(*old(src));
                    assert(data@ =~= c.take(index as int));
                }
                let payload = self.decode_slip(data.as_slice())?;
                let now = current_timestamp();
                Ok(Some(Message::rx(PayloadType::Binary, payload, frame, now)))
            },
        }
    }

    /// SLIP-encodes the message's payload into its frame.
    pub fn encode(&mut self, item: &mut Message)
        ensures
            *final(self) == *old(self),
            final(item).frame@ == slip_encoded(old(item).payload@, old(self).push_leading_end),
            *final(item) == (Message { frame: final(item).frame, ..*old(item) }),
    {
        let encoded = self.encode_slip(item.payload.as_slice());
        item.frame = encoded;
    }

    /// Applies the configuration: whether to push a leading `END` (on when unset).
    pub fn config(&mut self, push_leading_end: Option<bool>)
        ensures
            final(self).push_leading_end == match push_leading_end {
                Some(b) => b,
                None => true,
            },
    {
        self.push_leading_end = match push_leading_end {
            Some(b) => b,
            None => true,
        };
    }
}

impl Default for SlipCodec {
    fn default() -> (c: SlipCodec)
        ensures
            c.push_leading_end,
    {
        SlipCodec::new()
    }
}

} // verus!
