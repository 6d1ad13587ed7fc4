use vstd::prelude::*;
use crate::buffer::{buf_bytes, buf_len, buf_split_to, buf_to_vec, bytes_mut_contents};
use crate::error::CodecError;
use crate::message::{current_timestamp, is_fresh_message, Message, MessageType, PayloadType};
use crate::util::{copy_range, extend_from_range, find_byte, first_index_of, lemma_delimiter_run, lemma_first_index_of, repeated};

verus! {

/// Length of the run of non-sentinel bytes at the front of `data`.
pub open spec fn run_len(data: Seq<u8>, sentinel: u8) -> nat
    decreases data.len(),
{
    if data.len() == 0 || data[0] == sentinel {
        0
    } else {
        1 + run_len(data.skip(1), sentinel)
    }
}

/// The bytes before `run_len` are not the sentinel; the byte at `run_len`, if any, is.
pub proof fn lemma_run_len(data: Seq<u8>, sentinel: u8)
    ensures
        run_len(data, sentinel) <= data.len(),
        forall|j: int| 0 <= j < run_len(data, sentinel) ==> data[j] != sentinel,
        run_len(data, sentinel) < data.len() ==> data[run_len(data, sentinel) as int] == sentinel,
    decreases data.len(),
{
    if data.len() > 0 && data[0] != sentinel {
        lemma_run_len(data.skip(1), sentinel);
        assert forall|j: int| 0 <= j < run_len(data, sentinel) implies data[j] != sentinel by {
            if j > 0 {
                assert(data[j] == data.skip(1)[j - 1]);
            }
        }
    }
}

/// `run_len` is pinned down by a sentinel-free prefix followed by a sentinel or the end.
pub proof fn lemma_run_len_is(data: Seq<u8>, sentinel: u8, k: int)
    requires
        0 <= k <= data.len(),
        forall|j: int| 0 <= j < k ==> data[j] != sentinel,
        k < data.len() ==> data[k] == sentinel,
    ensures
        run_len(data, sentinel) == k,
{
    lemma_run_len(data, sentinel);
}

/// A sentinel-free prefix of length `k` means a run of at least `k`.
pub proof fn lemma_run_len_at_least(data: Seq<u8>, sentinel: u8, k: int)
    requires
        0 <= k <= data.len(),
        forall|j: int| 0 <= j < k ==> data[j] != sentinel,
    ensures
        run_len(data, sentinel) >= k,
{
    lemma_run_len(data, sentinel);
}

/// COBS blocks of `data` (without the closing delimiter): each block is a code byte followed by
/// the non-sentinel bytes it covers. A block ends at a sentinel (code = run + 1, the sentinel is
/// dropped) or after 254 bytes (code 0xFF, nothing dropped); the last block covers the rest.
pub open spec fn cobs_body(data: Seq<u8>, sentinel: u8) -> Seq<u8>
    decreases data.len(),
{
    let k = run_len(data, sentinel) as int;
    if k >= 254 {
        if data.len() >= 254 {
            seq![0xFFu8] + data.take(254) + cobs_body(data.skip(254), sentinel)
        } else {
            seq![]
        }
    } else if k < data.len() {
        seq![(k + 1) as u8] + data.take(k as int) + cobs_body(data.skip(k + 1 as int), sentinel)
    } else {
        seq![(k + 1) as u8] + data
    }
}

/// The COBS frame of `data`: its blocks followed by the sentinel as delimiter.
pub open spec fn cobs_encoded(data: Seq<u8>, sentinel: u8) -> Seq<u8> {
    cobs_body(data, sentinel) + seq![sentinel]
}

/// Decoding of COBS blocks: `None` where a code byte is zero. A block whose code is below 0xFF
/// is followed by a sentinel unless it is the last one; a short last block is taken as it is.
pub open spec fn cobs_decode(data: Seq<u8>, sentinel: u8) -> Option<Seq<u8>>
    decreases data.len(),
{
    if data.len() == 0 {
        Some(seq![])
    } else if data[0] == 0 {
        None
    } else {
        let code = data[0] as int;
        let rest = data.skip(1);
        let m = if code - 1 <= rest.len() { code - 1 } else { rest.len() as int };
        let after = rest.skip(m);
        match cobs_decode(after, sentinel) {
            None => None,
            Some(tail) => Some(
                rest.take(m) + (if code != 0xFF && after.len() > 0 {
                    seq![sentinel]
                } else {
                    seq![]
                }) + tail,
            ),
        }
    }
}

/// The blocks of any data are never empty.
pub proof fn lemma_cobs_body_nonempty(data: Seq<u8>, sentinel: u8)
    ensures
        cobs_body(data, sentinel).len() > 0,
{
    lemma_run_len(data, sentinel);
}

/// Decoding the COBS blocks of `data` gives `data` back, whatever the sentinel.
pub proof fn lemma_cobs_roundtrip(data: Seq<u8>, sentinel: u8)
    ensures
        cobs_decode(cobs_body(data, sentinel), sentinel) == Some(data),
    decreases data.len(),
{
    lemma_run_len(data, sentinel);
    let k = run_len(data, sentinel) as int;
    let body = cobs_body(data, sentinel);
    if k >= 254 {
        let tail = cobs_body(data.skip(254), sentinel);
        lemma_cobs_roundtrip(data.skip(254), sentinel);
        lemma_cobs_body_nonempty(data.skip(254), sentinel);
        assert(body.skip(1) =~= data.take(254) + tail);
        assert(body.skip(1).take(254) =~= data.take(254));
        assert(body.skip(1).skip(254) =~= tail);
        assert(data.take(254) + seq![] + data.skip(254) =~= data);
        assert(body[0] == 0xFF);
        assert(cobs_decode(body, sentinel) == Some(data.take(254) + seq![] + data.skip(254)));
    } else if k < data.len() {
        let tail = cobs_body(data.skip(k + 1), sentinel);
        lemma_cobs_roundtrip(data.skip(k + 1), sentinel);
        lemma_cobs_body_nonempty(data.skip(k + 1), sentinel);
        assert(body.skip(1) =~= data.take(k) + tail);
        assert(body.skip(1).take(k) =~= data.take(k));
        assert(body.skip(1).skip(k) =~= tail);
        assert(data.take(k) + seq![sentinel] + data.skip(k + 1) =~= data);
        assert(body[0] as int == k + 1);
        assert(cobs_decode(body, sentinel) == Some(data.take(k) + seq![sentinel] + data.skip(k + 1)));
    } else {
        assert(body.skip(1) =~= data);
        assert(body.skip(1).take(k) =~= data);
        assert(body.skip(1).skip(k) =~= Seq::<u8>::empty());
        assert(data + seq![] + seq![] =~= data);
        assert(body[0] as int == k + 1);
        assert(cobs_decode(Seq::<u8>::empty(), sentinel) == Some(Seq::<u8>::empty()));
        assert(cobs_decode(body, sentinel) == Some(data + seq![] + seq![]));
    }
}

/// With the zero sentinel, the blocks hold no zero byte, so the delimiter only ever ends a
/// frame.
pub proof fn lemma_cobs_body_sentinel_free(data: Seq<u8>)
    ensures
        forall|j: int| 0 <= j < cobs_body(data, 0).len() ==> cobs_body(data, 0)[j] != 0,
    decreases data.len(),
{
    lemma_run_len(data, 0);
    let k = run_len(data, 0) as int;
    let body = cobs_body(data, 0);
    if k >= 254 {
        lemma_cobs_body_sentinel_free(data.skip(254));
        assert forall|j: int| 0 <= j < body.len() implies body[j] != 0 by {
            if 1 <= j < 255 {
                assert(body[j] == data[j - 1]);
            } else if j >= 255 {
                assert(body[j] == cobs_body(data.skip(254), 0)[j - 255]);
            }
        }
    } else if k < data.len() {
        lemma_cobs_body_sentinel_free(data.skip(k + 1));
        assert forall|j: int| 0 <= j < body.len() implies body[j] != 0 by {
            if 1 <= j < k + 1 {
                assert(body[j] == data[j - 1]);
            } else if j >= k + 1 {
                assert(body[j] == cobs_body(data.skip(k + 1), 0)[j - k - 1]);
            }
        }
    } else {
        assert forall|j: int| 0 <= j < body.len() implies body[j] != 0 by {
            if j >= 1 {
                assert(body[j] == data[j - 1]);
            }
        }
    }
}

/// A buffer holding exactly the zero-sentinel COBS frame of `payload` is one non-empty frame
/// (the delimiter is its only zero) whose blocks decode to `payload`: `decode` consumes the
/// whole buffer and yields `payload`.
pub proof fn lemma_cobs_frame_roundtrip(payload: Seq<u8>)
    ensures
        first_index_of(cobs_encoded(payload, 0), 0) == Some(cobs_body(payload, 0).len() as int),
        cobs_body(payload, 0).len() > 0,
        cobs_encoded(payload, 0).take(cobs_body(payload, 0).len() as int) == cobs_body(payload, 0),
        cobs_encoded(payload, 0).skip(cobs_body(payload, 0).len() + 1int) == Seq::<u8>::empty(),
        cobs_decode(cobs_body(payload, 0), 0) == Some(payload),
{
    let body = cobs_body(payload, 0);
    let enc = cobs_encoded(payload, 0);
    lemma_cobs_body_sentinel_free(payload);
    lemma_cobs_body_nonempty(payload, 0);
    lemma_cobs_roundtrip(payload, 0);
    assert forall|j: int| 0 <= j < body.len() implies enc[j] != 0 by {
        assert(enc[j] == body[j]);
    }
    lemma_first_index_of(enc, 0, body.len() as int);
    assert(enc.take(body.len() as int) =~= body);
    assert(enc.skip(body.len() + 1int) =~= Seq::<u8>::empty());
}

/// A zero-sentinel COBS frame after `j` stray sentinels: each of the first `j` decode steps
/// finds a sentinel at the front (an empty frame, no message) and drops it, and then the frame
/// itself is left, which decodes to `payload` (see `lemma_cobs_frame_roundtrip`).
pub proof fn lemma_cobs_leading_sentinels(j: nat, payload: Seq<u8>)
    ensures
        forall|i: int| 0 <= i < j ==> #[trigger] first_index_of((repeated(0u8, j) + cobs_encoded(payload, 0)).skip(i), 0)
            == Some(0int),
        (repeated(0u8, j) + cobs_encoded(payload, 0)).skip(j as int) == cobs_encoded(payload, 0),
        cobs_decode(cobs_body(payload, 0), 0) == Some(payload),
{
    lemma_delimiter_run(0, j, cobs_encoded(payload, 0));
    lemma_cobs_frame_roundtrip(payload);
}

/// COBS framing with a configurable sentinel (zero unless configured otherwise; `config`
/// always sets zero).
#[derive(Debug, Clone, Copy, Default)]
pub struct CobsCodec {
    pub sentinel: u8,
}

impl CobsCodec {
    /// COBS-encodes `data` and appends the sentinel as frame delimiter.
    pub fn encode_cobs(&self, data: &[u8]) -> (encoded: Vec<u8>)
        ensures
            encoded@ == cobs_encoded(data@, self.sentinel),
    {
        let s = self.sentinel;
        let mut encoded: Vec<u8> = Vec::new();
        let mut code_index: usize = 0;
        let mut code: u8 = 1;
        encoded.push(0);
        let ghost mut blk: int = 0;
        let ghost mut prefix: Seq<u8> = seq![];
        let mut i: usize = 0;
        assert(encoded@ =~= prefix + seq![0u8] + data@.subrange(0, 0));
        assert(data@.skip(0) =~= data@);
        while i < data.len()
            invariant
                0 <= blk <= i <= data.len(),
                i - blk < 254,
                code == i - blk + 1,
                code_index == prefix.len(),
                encoded@ == prefix + seq![0u8] + data@.subrange(blk, i as int),
                prefix + cobs_body(data@.skip(blk), s) == cobs_body(data@, s),
                forall|j: int| blk <= j < i ==> data@[j] != s,
            decreases data.len() - i,
        {
            let byte = data[i];
            let ghost rest = data@.skip(blk);
            if byte == s {
                proof {
                    lemma_run_len_is(rest, s, i - blk);
                    assert(rest.take(i - blk) =~= data@.subrange(blk, i as int));
                    assert(rest.skip(i - blk + 1) =~= data@.skip(i + 1));
                    assert(cobs_body(rest, s) == seq![code] + data@.subrange(blk, i as int)
                        + cobs_body(data@.skip(i + 1), s));
                }
                encoded.set(code_index, code);
                proof {
                    assert(encoded@ =~= prefix + seq![code] + data@.subrange(blk, i as int));
                    prefix = encoded@;
                    blk = i + 1;
                }
                code_index = encoded.len();
                encoded.push(0);
                code = 1;
                proof {
                    assert(encoded@ =~= prefix + seq![0u8] + data@.subrange(blk, i + 1));
                    assert(prefix + cobs_body(data@.skip(blk), s) =~= cobs_body(data@, s));
                }
            } else {
                encoded.push(byte);
                code = code + 1;
                proof {
                    assert(encoded@ =~= prefix + seq![0u8] + data@.subrange(blk, i + 1));
                }
                if code == 0xFF {
                    proof {
                        lemma_run_len_at_least(rest, s, 254);
                        assert(rest.take(254) =~= data@.subrange(blk, i + 1));
                        assert(rest.skip(254) =~= data@.skip(i + 1));
                        assert(cobs_body(rest, s) == seq![0xFFu8] + data@.subrange(blk, i + 1)
                            + cobs_body(data@.skip(i + 1), s));
                    }
                    encoded.set(code_index, code);
                    proof {
                        assert(encoded@ =~= prefix + seq![0xFFu8] + data@.subrange(blk, i + 1));
                        prefix = encoded@;
                        blk = i + 1;
                    }
                    code_index = encoded.len();
                    encoded.push(0);
                    code = 1;
                    proof {
                        assert(encoded@ =~= prefix + seq![0u8] + data@.subrange(blk, i + 1));
                        assert(prefix + cobs_body(data@.skip(blk), s) =~= cobs_body(data@, s));
                    }
                }
            }
            i = i + 1;
        }
        proof {
            let rest = data@.skip(blk);
            lemma_run_len_is(rest, s, rest.len() as int);
            assert(rest =~= data@.subrange(blk, i as int));
        }
        encoded.set(code_index, code);
        assert(encoded@ =~= prefix + cobs_body(data@.skip(blk), s));
        encoded.push(s);
        encoded
    }

    /// Decodes COBS blocks (delimiter already stripped). Fails exactly where a code byte is
    /// zero.
    pub fn decode_cobs(&self, data: &[u8]) -> (r: Result<Vec<u8>, CodecError>)
        ensures
            match cobs_decode(data@, self.sentinel) {
                Some(d) => r matches Ok(v) && v@ == d,
                None => r matches Err(e) && e == CodecError::CobsZeroCode,
            },
    {
        let s = self.sentinel;
        let mut decoded: Vec<u8> = Vec::new();
        if data.len() == 0 {
            return Ok(decoded);
        }
        let mut i: usize = 0;
        assert(data@.skip(0) =~= data@);
        while i < data.len()
            invariant
                i <= data@.len(),
                s == self.sentinel,
                cobs_decode(data@, s) == match cobs_decode(data@.skip(i as int), s) {
                    Some(t) => Some(decoded@ + t),
                    None => None::<Seq<u8>>,
                },
            decreases data.len() - i,
        {
            let ghost d = data@.skip(i as int);
            let code = data[i] as usize;
            assert(d[0] == data@[i as int]);
            if code == 0 {
                assert(d.len() > 0);
                return Err(CodecError::CobsZeroCode);
            }
            i = i + 1;
            let copy_len = if code - 1 <= data.len() - i { code - 1 } else { data.len() - i };
            let ghost before = decoded@;
            extend_from_range(&mut decoded, data, i, i + copy_len);
            proof {
                assert(d.skip(1) =~= data@.skip(i as int));
                assert(d.skip(1).take(copy_len as int) =~= data@.subrange(i as int, i + copy_len));
                assert(d.skip(1).skip(copy_len as int) =~= data@.skip(i + copy_len));
            }
            i = i + copy_len;
            if code != 0xFF && i < data.len() {
                decoded.push(s);
            }
            proof {
                let sep = if code != 0xFF && i < data@.len() { seq![s] } else { seq![] };
                assert(decoded@ =~= before + data@.subrange((i - copy_len) as int, i as int) + sep);
                match cobs_decode(data@.skip(i as int), s) {
                    Some(t) => {
                        assert(before + (data@.subrange((i - copy_len) as int, i as int) + sep + t)
                            =~= decoded@ + t);
                    },
                    None => {},
                }
            }
        }
        assert(data@.skip(i as int) =~= Seq::<u8>::empty());
        assert(decoded@ + Seq::<u8>::empty() =~= decoded@);
        Ok(decoded)
    }

    /// Takes the next sentinel-delimited frame off `src` and decodes it. With no sentinel in
    /// the buffer nothing is consumed; an empty frame (a bare sentinel, as sent to flush line
    /// noise) is consumed and yields nothing.
    pub fn decode(&mut self, src: &mut bytes::BytesMut) -> (r: Result<Option<Message>, CodecError>)
        ensures
            *final(self) == *old(self),
            ({
                let c = bytes_mut_contents(*old(src));
                let f = bytes_mut_contents(*final(src));
                match first_index_of(c, old(self).sentinel) {
                    None => f == c && r == Ok::<Option<Message>, CodecError>(None),
                    Some(k) => {
                        &&& f == c.skip(k + 1)
                        &&& k == 0 ==> r == Ok::<Option<Message>, CodecError>(None)
                        &&& k > 0 ==> match cobs_decode(c.take(k), old(self).sentinel) {
                            None => r matches Err(e) && e == CodecError::CobsZeroCode,
                            Some(p) => r matches Ok(Some(m)) && is_fresh_message(
                                m, MessageType::Rx, PayloadType::Binary, p, c.take(k + 1), m.timestamp),
                        }
                    },
                }
            }),
    {
        let len = buf_len(src);
        let index = find_byte(buf_bytes(src), self.sentinel);
        match index {
            None => Ok(None),
            Some(index) => {
                let frame_buf = buf_split_to(src, index + 1);
                let frame = buf_to_vec(&frame_buf);
                if index == 0 {
                    return Ok(None);
                }
                let encoded = copy_range(frame.as_slice(), 0, index);
                proof {
                    let c = bytes_mut_contents(*old(src));
                    assert(encoded@ =~= c.take(index as int));
                }
                let payload = self.decode_cobs(encoded.as_slice())?;
                let now = current_timestamp();
                Ok(Some(Message::rx(PayloadType::Binary, payload, frame, now)))
            },
        }
    }

    /// Encodes the message's payload as a COBS frame.
    pub fn encode(&mut self, item: &mut Message)
        ensures
            *final(self) == *old(self),
            final(item).frame@ == cobs_encoded(old(item).payload@, old(self).sentinel),
            *final(item) == (Message { frame: final(item).frame, ..*old(item) }),
    {
        let encoded = self.encode_cobs(item.payload.as_slice());
        item.frame = encoded;
    }

    /// Applies the configuration: this codec supports only the zero sentinel.
    pub fn config(&mut self)
        ensures
            final(self).sentinel == 0,
    {
        self.sentinel = 0;
    }
}

} // verus!
