use vstd::prelude::*;
use vstd::string::StringSliceAdditionalSpecFns;
use crate::buffer::{buf_bytes, buf_len, buf_split_to, buf_to_vec, bytes_mut_contents};
use crate::error::CodecError;
use crate::message::{current_timestamp, is_fresh_message, Message, MessageType, PayloadType};
use crate::util::{bytes_end_with, bytes_equal, copy_range, ends_with, find_byte, first_index_of};

verus! {

/// Which line terminator delimits frames.
#[derive(Debug, Clone, Copy, PartialEq, Eq)]
pub enum LineEnding {
    Lf,
    CrLf,
}

/// The UTF-8 bytes of "lf".
pub open spec fn lf_name() -> Seq<u8> {
    seq![0x6Cu8, 0x66u8]
}

/// The UTF-8 bytes of "crlf".
pub open spec fn crlf_name() -> Seq<u8> {
    seq![0x63u8, 0x72u8, 0x6Cu8, 0x66u8]
}

impl LineEnding {
    /// Parses a configured name: "crlf" is CR LF; "lf" and anything else is LF.
    pub fn new_from_str(s: &str) -> (e: LineEnding)
        ensures
            e == (if s.spec_bytes() == crlf_name() { LineEnding::CrLf } else { LineEnding::Lf }),
    {
        let b = s.as_bytes();
        let lf: [u8; 2] = [0x6C, 0x66];
        let crlf: [u8; 4] = [0x63, 0x72, 0x6C, 0x66];
        assert(lf@ =~= lf_name());
        assert(crlf@ =~= crlf_name());
        if bytes_equal(b, lf.as_slice()) {
            LineEnding::Lf
        } else if bytes_equal(b, crlf.as_slice()) {
            LineEnding::CrLf
        } else {
            LineEnding::Lf
        }
    }
}

/// Index of the first CR that is directly followed by LF.
pub open spec fn first_crlf(s: Seq<u8>) -> Option<int>
    decreases s.len(),
{
    if s.len() < 2 {
        None
    } else if s[0] == 0x0Du8 && s[1] == 0x0Au8 {
        Some(0)
    } else {
        match first_crlf(s.skip(1)) {
            Some(i) => Some(i + 1),
            None => None,
        }
    }
}

/// `first_crlf` finds exactly the first CR LF pair.
pub proof fn lemma_first_crlf(s: Seq<u8>, k: int)
    requires
        0 <= k <= s.len(),
        forall|j: int| 0 <= j < k && j + 1 < s.len() ==> !(#[trigger] s[j] == 0x0Du8 && s[j + 1] == 0x0Au8),
    ensures
        k + 1 < s.len() && s[k] == 0x0Du8 && s[k + 1] == 0x0Au8 ==> first_crlf(s) == Some(k),
        k + 1 >= s.len() ==> first_crlf(s) is None,
    decreases k,
{
    if k > 0 && s.len() >= 2 {
        assert forall|j: int| 0 <= j < k - 1 && j + 1 < s.skip(1).len() implies
            !(#[trigger] s.skip(1)[j] == 0x0Du8 && s.skip(1)[j + 1] == 0x0Au8) by {
            assert(s.skip(1)[j] == s[j + 1]);
            assert(s.skip(1)[j + 1] == s[j + 2]);
        }
        lemma_first_crlf(s.skip(1), k - 1);
    }
}

/// Position of the first CR LF pair in `s`.
pub fn find_crlf(s: &[u8]) -> (r: Option<usize>)
    ensures
        match r {
            Some(i) => first_crlf(s@) == Some(i as int) && i + 1 < s@.len(),
            None => first_crlf(s@) is None,
        },
{
    let mut i: usize = 0;
    while i < s.len()
        invariant
            i <= s@.len(),
            forall|j: int| 0 <= j < i && j + 1 < s@.len() ==> !(#[trigger] s@[j] == 0x0Du8 && s@[j + 1] == 0x0Au8),
        decreases s.len() - i,
    {
        if s[i] == 0x0D && i + 1 < s.len() && s[i + 1] == 0x0A {
            proof { lemma_first_crlf(s@, i as int); }
            return Some(i);
        }
        i = i + 1;
    }
    proof { lemma_first_crlf(s@, i as int); }
    None
}

/// The terminator bytes of a line ending.
pub open spec fn terminator(e: LineEnding) -> Seq<u8> {
    match e {
        LineEnding::Lf => seq![0x0Au8],
        LineEnding::CrLf => seq![0x0Du8, 0x0Au8],
    }
}

/// Where the first complete line ends in `s` (the index of its terminator), if anywhere.
pub open spec fn first_line_end(s: Seq<u8>, e: LineEnding) -> Option<int> {
    match e {
        LineEnding::Lf => first_index_of(s, 0x0Au8),
        LineEnding::CrLf => first_crlf(s),
    }
}

/// The frame of an outgoing payload: the payload with the terminator appended unless it
/// already ends with it.
pub open spec fn line_encoded(payload: Seq<u8>, e: LineEnding) -> Seq<u8> {
    if ends_with(payload, terminator(e)) { payload } else { payload + terminator(e) }
}

/// Line-delimited framing.
#[derive(Debug, Clone, Copy)]
pub struct LineCodec {
    pub line_ending: LineEnding,
}

impl LineCodec {
    pub fn new(line_ending: LineEnding) -> (c: LineCodec)
        ensures
            c.line_ending == line_ending,
    {
        LineCodec { line_ending }
    }

    /// The default codec splits on LF.
    pub fn default_codec() -> (c: LineCodec)
        ensures
            c.line_ending == LineEnding::Lf,
    {
        LineCodec { line_ending: LineEnding::Lf }
    }

    /// Takes the first complete line off `src`: the frame keeps the terminator, the payload
    /// drops it. With no complete line nothing is consumed. It never fails.
    pub fn decode(&mut self, src: &mut bytes::BytesMut) -> (r: Result<Option<Message>, CodecError>)
        ensures
            *final(self) == *old(self),
            ({
                let c = bytes_mut_contents(*old(src));
                let f = bytes_mut_contents(*final(src));
                let t = terminator(old(self).line_ending).len() as int;
                match first_line_end(c, old(self).line_ending) {
                    None => f == c && r == Ok::<Option<Message>, CodecError>(None),
                    Some(k) => {
                        &&& f == c.skip(k + t)
                        &&& r matches Ok(Some(m)) && is_fresh_message(
                            m, MessageType::Rx, PayloadType::Binary, c.take(k), c.take(k + t), m.timestamp)
                    },
                }
            }),
    {
        let len = buf_len(src);
        let found = match self.line_ending {
            LineEnding::Lf => find_byte(buf_bytes(src), 0x0A),
            LineEnding::CrLf => find_crlf(buf_bytes(src)),
        };
        let t: usize = match self.line_ending {
            LineEnding::Lf => 1,
            LineEnding::CrLf => 2,
        };
        match found {
            None => Ok(None),
            Some(index) => {
                let frame_buf = buf_split_to(src, index + t);
                let frame = buf_to_vec(&frame_buf);
                let payload = copy_range(frame.as_slice(), 0, index);
                proof {
                    let c = bytes_mut_contents(*old(src));
                    assert(payload@ =~= c.take(index as int));
                }
                let now = current_timestamp();
                Ok(Some(Message::rx(PayloadType::Binary, payload, frame, now)))
            },
        }
    }

    /// Frames an outgoing payload: appends the terminator unless the payload already ends
    /// with it.
    pub fn encode(&mut self, item: &mut Message)
        ensures
            *final(self) == *old(self),
            final(item).frame@ == line_encoded(old(item).payload@, old(self).line_ending),
            *final(item) == (Message { frame: final(item).frame, ..*old(item) }),
    {
        let mut dst: Vec<u8> = Vec::new();
        crate::util::extend_from_range(&mut dst, item.payload.as_slice(), 0, item.payload.len());
        assert(item.payload@.subrange(0, item.payload@.len() as int) =~= item.payload@);
        match self.line_ending {
            LineEnding::Lf => {
                let term: [u8; 1] = [0x0A];
                assert(term@ =~= terminator(LineEnding::Lf));
                if !bytes_end_with(item.payload.as_slice(), term.as_slice()) {
                    dst.push(0x0A);
                }
            },
            LineEnding::CrLf => {
                let term: [u8; 2] = [0x0D, 0x0A];
                assert(term@ =~= terminator(LineEnding::CrLf));
                if !bytes_end_with(item.payload.as_slice(), term.as_slice()) {
                    dst.push(0x0D);
                    dst.push(0x0A);
                }
            },
        }
        assert(dst@ =~= line_encoded(item.payload@, self.line_ending));
        item.frame = dst;
    }

    /// Applies the configured line ending name ("lf" when unset).
    pub fn config(&mut self, line_ending: Option<&str>)
        ensures
            final(self).line_ending == match line_ending {
                Some(s) => if s.spec_bytes() == crlf_name() { LineEnding::CrLf } else { LineEnding::Lf },
                None => LineEnding::Lf,
            },
    {
        self.line_ending = match line_ending {
            Some(s) => LineEnding::new_from_str(s),
            None => LineEnding::Lf,
        };
    }
}


/// Whether the line terminator of `e` starts at `j`.
pub open spec fn terminator_at(s: Seq<u8>, j: int, e: LineEnding) -> bool {
    match e {
        LineEnding::Lf => s[j] == 0x0Au8,
        LineEnding::CrLf => j + 1 < s.len() && s[j] == 0x0Du8 && s[j + 1] == 0x0Au8,
    }
}

/// A payload that holds no line terminator comes back from its framed line intact: the
/// decoder finds the line end exactly where the payload ends.
pub proof fn lemma_line_roundtrip(payload: Seq<u8>, e: LineEnding)
    requires
        forall|j: int| 0 <= j < payload.len() ==> !#[trigger] terminator_at(payload, j, e),
    ensures
        first_line_end(line_encoded(payload, e), e) == Some(payload.len() as int),
        line_encoded(payload, e).take(payload.len() as int) == payload,
        line_encoded(payload, e).len() == payload.len() + terminator(e).len(),
{
    let t = terminator(e);
    if ends_with(payload, t) {
        let k = payload.len() - t.len();
        assert(payload.skip(k) == t);
        assert(payload.skip(k)[0] == payload[k]);
        if e == LineEnding::CrLf {
            assert(payload.skip(k)[1] == payload[k + 1]);
        }
        assert(terminator_at(payload, k, e));
        assert(false);
    }
    let s = payload + t;
    assert(line_encoded(payload, e) == s);
    match e {
        LineEnding::Lf => {
            assert forall|j: int| 0 <= j < payload.len() implies s[j] != 0x0Au8 by {
                assert(s[j] == payload[j]);
                assert(!terminator_at(payload, j, e));
            }
            crate::util::lemma_first_index_of(s, 0x0Au8, payload.len() as int);
        },
        LineEnding::CrLf => {
            assert forall|j: int| 0 <= j < payload.len() && j + 1 < s.len() implies !(#[trigger] s[j] == 0x0Du8 && s[j + 1] == 0x0Au8) by {
                assert(s[j] == payload[j]);
                assert(!terminator_at(payload, j, e));
                if j + 1 < payload.len() {
                    assert(s[j + 1] == payload[j + 1]);
                } else {
                    assert(s[j + 1] == 0x0Du8);
                }
            }
            lemma_first_crlf(s, payload.len() as int);
        },
    }
    assert(s.take(payload.len() as int) =~= payload);
}

} // verus!
