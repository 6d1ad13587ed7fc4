use vstd::prelude::*;
use crate::buffer::{buf_advance, buf_bytes, buf_len, bytes_mut_contents};
use crate::cbrt::parser::{frame_message_ok, parse_at, ParseOutcome};
use crate::cbrt::scan::{scan_frame, sync_word, FrameHeader, FrameScan};
use crate::cbrt::session::{fresh_session, session_step, FrameFacts, SessionState};
use crate::codec::passthrough::clone_bytes;
use crate::error::CodecError;
use crate::message::{current_timestamp, Message};

verus! {

/// Whether the sync word starts at `i`.
pub open spec fn is_sync_at(b: Seq<u8>, i: int) -> bool {
    &&& 0 <= i
    &&& i + 4 <= b.len()
    &&& b.subrange(i, i + 4) == sync_word()
}

/// The first sync word at or after `i`.
pub open spec fn sync_from(b: Seq<u8>, i: int) -> Option<int>
    decreases b.len() - i,
{
    if i < 0 || i + 4 > b.len() {
        None
    } else if is_sync_at(b, i) {
        Some(i)
    } else {
        sync_from(b, i + 1)
    }
}

pub proof fn lemma_sync_from_bounds(b: Seq<u8>, i: int)
    ensures
        sync_from(b, i) matches Some(p) ==> i <= p && is_sync_at(b, p),
    decreases b.len() - i,
{
    if !(i < 0 || i + 4 > b.len()) && !is_sync_at(b, i) {
        lemma_sync_from_bounds(b, i + 1);
    }
}

/// What one decode call does to a buffer: wait after dropping `drop` bytes, or decode the
/// frame whose sync is at `sync` once the first `skip` bytes are dropped.
pub enum DecodePlan {
    Wait { drop: nat },
    Found { skip: nat, sync: nat, header: FrameHeader },
}

/// The same plan for a buffer with `k` more bytes in front.
pub open spec fn shift_plan(plan: DecodePlan, k: nat) -> DecodePlan {
    match plan {
        DecodePlan::Wait { drop } => DecodePlan::Wait { drop: drop + k },
        DecodePlan::Found { skip, sync, header } => DecodePlan::Found { skip: skip + k, sync, header },
    }
}

/// Under four bytes: wait. No sync word: keep the last three bytes (a sync may be split across
/// reads) and wait. Otherwise look at the first sync word: a frame that needs more bytes
/// drops what precedes the sync and waits; a valid frame is decoded; a rejected candidate is
/// skipped by one byte past its sync and the rest is scanned again.
pub open spec fn decode_plan(b: Seq<u8>) -> DecodePlan
    decreases b.len(),
{
    if b.len() < 4 {
        DecodePlan::Wait { drop: 0 }
    } else {
        match sync_from(b, 0) {
            None => DecodePlan::Wait { drop: (b.len() - 3) as nat },
            Some(p) => if 0 <= p && p + 4 <= b.len() {
                match scan_frame(b, p) {
                    FrameScan::NeedMore => DecodePlan::Wait { drop: p as nat },
                    FrameScan::Frame(h) => DecodePlan::Found { skip: 0, sync: p as nat, header: h },
                    FrameScan::Reject => shift_plan(decode_plan(b.skip(p + 1)), (p + 1) as nat),
                }
            } else {
                DecodePlan::Wait { drop: 0 }
            },
        }
    }
}

/// What a decode call returns, given the buffer before and after and the session before and
/// after, for frames arriving at `arrival_us`.
pub open spec fn decode_ok(
    r: Option<(Message, FrameFacts)>,
    before: SessionState,
    after: SessionState,
    old_buf: Seq<u8>,
    new_buf: Seq<u8>,
    arrival_us: u64,
) -> bool {
    match decode_plan(old_buf) {
        DecodePlan::Wait { drop } => r is None && after == before && new_buf == old_buf.skip(drop as int),
        DecodePlan::Found { skip, sync, header } => match r {
            Some((m, f)) => {
                let rest = old_buf.skip(skip as int);
                &&& new_buf == rest.skip(header.frame_end as int)
                &&& (after, f) == session_step(before, header, arrival_us)
                &&& frame_message_ok(m, rest, sync as int, header, f, arrival_us)
            },
            None => false,
        },
    }
}

/// `decode_ok` for a decoder that hands out the message alone, stamped `t`.
pub open spec fn decoded_at(
    r: Result<Option<Message>, CodecError>,
    before: SessionState,
    after: SessionState,
    old_buf: Seq<u8>,
    new_buf: Seq<u8>,
    t: u64,
) -> bool {
    decode_ok(
        match r {
            Ok(Some(m)) => Some((m, session_step(before, decode_plan(old_buf)->header, t).1)),
            _ => None,
        },
        before, after, old_buf, new_buf, t,
    )
}

/// Finds the first sync word.
pub fn find_sync(b: &[u8]) -> (r: Option<usize>)
    ensures
        match r {
            Some(i) => sync_from(b@, 0) == Some(i as int),
            None => sync_from(b@, 0) is None,
        },
{
    let n = b.len();
    let mut i: usize = 0;
    while i < n && n - i >= 4
        invariant
            n == b@.len(),
            i <= n,
            sync_from(b@, 0) == sync_from(b@, i as int),
        decreases n - i,
    {
        if b[i] == 0x43 && b[i + 1] == 0x42 && b[i + 2] == 0x52 && b[i + 3] == 0x54 {
            assert(b@.subrange(i as int, i + 4) =~= sync_word());
            return Some(i);
        }
        proof {
            let w = b@.subrange(i as int, i + 4);
            assert(w[0] == b@[i as int] && w[1] == b@[i + 1] && w[2] == b@[i + 2] && w[3] == b@[i + 3]);
            assert(!is_sync_at(b@, i as int));
        }
        i = i + 1;
    }
    None
}

/// Stream decoder for CBRT frames: one session for the whole stream.
pub struct CbrtCodec {
    pub state: SessionState,
}

impl CbrtCodec {
    pub fn new() -> (c: CbrtCodec)
        ensures
            c.state == fresh_session(None),
    {
        CbrtCodec { state: SessionState::new() }
    }

    /// Decodes the next frame of `src` as arriving at `arrival_us`, with the session facts the
    /// timing of inferred periods is finished from.
    pub fn decode_frame(&mut self, src: &mut bytes::BytesMut, arrival_us: u64) -> (r: Option<(Message, FrameFacts)>)
        ensures
            decode_ok(r, old(self).state, final(self).state, bytes_mut_contents(*old(src)),
                bytes_mut_contents(*final(src)), arrival_us),
    {
        let ghost orig = bytes_mut_contents(*src);
        let ghost mut consumed: nat = 0;
        assert(orig.skip(0) =~= orig);
        loop
            invariant
                consumed <= orig.len(),
                bytes_mut_contents(*src) == orig.skip(consumed as int),
                decode_plan(orig) == shift_plan(decode_plan(bytes_mut_contents(*src)), consumed),
                self.state == old(self).state,
                orig == bytes_mut_contents(*old(src)),
            decreases bytes_mut_contents(*src).len(),
        {
            let ghost cur = bytes_mut_contents(*src);
            let n = buf_len(src);
            if n < 4 {
                assert(cur.skip(0) =~= cur);
                return None;
            }
            let buffer = buf_bytes(src);
            match find_sync(buffer) {
                None => {
                    buf_advance(src, n - 3);
                    proof {
                        assert(orig.skip(consumed as int).skip(n - 3) =~= orig.skip(consumed + n - 3));
                    }
                    return None;
                },
                Some(p) => {
                    proof {
                        lemma_sync_from_bounds(cur, 0);
                    }
                    match parse_at(&mut self.state, buffer, p, arrival_us) {
                        ParseOutcome::Complete { frame_end, message, facts } => {
                            proof {
                                crate::cbrt::scan::lemma_frame_header(cur, p as int);
                            }
                            buf_advance(src, frame_end);
                            return Some((message, facts));
                        },
                        ParseOutcome::NeedMore => {
                            buf_advance(src, p);
                            proof {
                                assert(orig.skip(consumed as int).skip(p as int) =~= orig.skip(consumed + p));
                            }
                            return None;
                        },
                        ParseOutcome::Reject => {
                            buf_advance(src, p + 1);
                            proof {
                                assert(orig.skip(consumed as int).skip(p + 1) =~= orig.skip(consumed + p + 1));
                                consumed = (consumed + p + 1) as nat;
                            }
                        },
                    }
                },
            }
        }
    }

    /// Decodes the next frame of `src`, stamped with the current time.
    pub fn decode(&mut self, src: &mut bytes::BytesMut) -> (r: Result<Option<Message>, CodecError>)
        ensures
            r is Ok,
            exists|t: u64| decoded_at(r, old(self).state, final(self).state, bytes_mut_contents(*old(src)),
                bytes_mut_contents(*final(src)), t),
    {
        let arrival_us = current_timestamp();
        let out = self.decode_frame(src, arrival_us);
        let r = match out {
            Some((message, _facts)) => Ok(Some(message)),
            None => Ok(None),
        };
        assert(decoded_at(r, old(self).state, self.state, bytes_mut_contents(*old(src)),
            bytes_mut_contents(*src), arrival_us));
        r
    }

    /// Sends the payload as it is: the frame is the payload unless one was already set.
    pub fn encode(&mut self, item: &mut Message) -> (r: Result<(), CodecError>)
        ensures
            r is Ok,
            *final(self) == *old(self),
            *final(item) == (Message { frame: final(item).frame, ..*old(item) }),
            final(item).frame@ == if old(item).frame@.len() == 0 { old(item).payload@ } else { old(item).frame@ },
    {
        if item.frame.len() == 0 {
            item.frame = clone_bytes(&item.payload);
        }
        Ok(())
    }

    /// Forgets the session.
    pub fn reset(&mut self)
        ensures
            final(self).state == fresh_session(None),
    {
        self.state.reset();
    }
}

impl Default for CbrtCodec {
    fn default() -> (c: CbrtCodec)
        ensures
            c.state == fresh_session(None),
    {
        CbrtCodec::new()
    }
}

} // verus!
