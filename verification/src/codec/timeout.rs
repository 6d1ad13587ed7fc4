use vstd::prelude::*;
use crate::buffer::{buf_len, buf_split_to, buf_to_vec, bytes_mut_contents};
use crate::codec::passthrough::clone_bytes;
use crate::message::{current_timestamp, is_fresh_message, Message, MessageType, PayloadType};

verus! {

/// A point on the monotonic clock.
#[verifier::external_type_specification]
#[verifier::external_body]
pub struct ExInstant(std::time::Instant);

/// `Instant::now`: the current point on the monotonic clock. Nothing is promised of it.
#[verifier::external_body]
fn instant_now() -> std::time::Instant {
    std::time::Instant::now()
}

/// `Instant::duration_since` read in whole milliseconds: zero from an instant to itself (the
/// duration from an instant to one that is not later is zero); otherwise nothing is promised,
/// as it depends on clock readings.
#[verifier::external_body]
fn millis_between(later: &std::time::Instant, earlier: &std::time::Instant) -> (ms: u128)
    ensures
        *later == *earlier ==> ms == 0,
{
    later.duration_since(*earlier).as_millis()
}

/// Whether a frame that has been buffering for `elapsed_ms` is due.
pub fn frame_due(elapsed_ms: u128, timeout_ms: u32) -> (due: bool)
    ensures
        due == (elapsed_ms >= timeout_ms),
{
    elapsed_ms >= timeout_ms as u128
}

/// Emits whatever arrived once `timeout_ms` has passed since the frame's first byte, or once
/// the transport goes quiet.
pub struct TimeoutCodec {
    pub timeout_ms: u32,
    /// When the current frame started buffering; `None` before its first byte.
    pub frame_start: Option<std::time::Instant>,
}

/// Whether `r` is the message of all of `c`, the buffer now empty and the frame closed.
pub open spec fn emitted_all(c: Seq<u8>, f: Seq<u8>, r: Option<Message>) -> bool {
    f == Seq::<u8>::empty() && (r matches Some(m) && is_fresh_message(
        m, MessageType::Rx, PayloadType::Binary, c, c, m.timestamp))
}

/// What a step of timeout framing does to non-empty buffered bytes `c` (leaving `f`) when
/// `elapsed_ms` have passed since the frame started at `start`: once the timeout has passed
/// all of `c` is emitted and the frame closed; before that nothing is emitted and the frame
/// stays open at the same start.
pub open spec fn timeout_outcome(
    c: Seq<u8>,
    f: Seq<u8>,
    r: Option<Message>,
    start: Option<std::time::Instant>,
    after: Option<std::time::Instant>,
    timeout_ms: u32,
    elapsed_ms: u128,
) -> bool {
    if elapsed_ms >= timeout_ms {
        emitted_all(c, f, r) && after is None
    } else {
        f == c && r is None && after == start
    }
}

/// The start of the current frame: the recorded one, or the one opened now.
pub open spec fn frame_opened(before: Option<std::time::Instant>, now: Option<std::time::Instant>) -> Option<std::time::Instant> {
    match before {
        Some(s) => Some(s),
        None => now,
    }
}

impl TimeoutCodec {
    pub fn new(timeout_ms: u32) -> (c: TimeoutCodec)
        ensures
            c.timeout_ms == timeout_ms,
            c.frame_start is None,
    {
        TimeoutCodec { timeout_ms, frame_start: None }
    }

    /// The default timeout is 50 ms.
    pub fn default_codec() -> (c: TimeoutCodec)
        ensures
            c.timeout_ms == 50,
            c.frame_start is None,
    {
        TimeoutCodec { timeout_ms: 50, frame_start: None }
    }

    fn emit(&mut self, src: &mut bytes::BytesMut) -> (r: Option<Message>)
        ensures
            final(self).timeout_ms == old(self).timeout_ms,
            final(self).frame_start is None,
            emitted_all(bytes_mut_contents(*old(src)), bytes_mut_contents(*final(src)), r),
    {
        self.frame_start = None;
        let n = buf_len(src);
        let data = buf_split_to(src, n);
        let frame = buf_to_vec(&data);
        let payload = clone_bytes(&frame);
        proof {
            let c = bytes_mut_contents(*old(src));
            assert(c.take(n as int) =~= c);
            assert(c.skip(n as int) =~= Seq::<u8>::empty());
        }
        let now = current_timestamp();
        Some(Message::rx(PayloadType::Binary, payload, frame, now))
    }

    /// One step of timeout framing, given the milliseconds `elapsed_ms` since the current
    /// frame's start: nothing when the buffer is empty; otherwise all buffered bytes are
    /// emitted once `timeout_ms` has passed, and before that they stay buffered.
    pub fn decode_elapsed(&mut self, src: &mut bytes::BytesMut, elapsed_ms: u128) -> (r: Option<Message>)
        ensures
            final(self).timeout_ms == old(self).timeout_ms,
            ({
                let c = bytes_mut_contents(*old(src));
                let f = bytes_mut_contents(*final(src));
                if c.len() == 0 {
                    f == c && r is None && *final(self) == *old(self)
                } else {
                    timeout_outcome(c, f, r, old(self).frame_start, final(self).frame_start, old(self).timeout_ms,
                        elapsed_ms)
                }
            }),
    {
        if buf_len(src) == 0 {
            return None;
        }
        if frame_due(elapsed_ms, self.timeout_ms) {
            return self.emit(src);
        }
        None
    }

    /// Nothing when the buffer is empty. Otherwise the frame's start is recorded on its first
    /// byte (no time has passed for a frame that starts now), and the step above is taken with
    /// the time since then: all buffered bytes are emitted once `timeout_ms` has passed (even
    /// while data keeps arriving), and before that they stay buffered. With a zero timeout
    /// every call emits.
    pub fn decode(&mut self, src: &mut bytes::BytesMut) -> (r: Option<Message>)
        ensures
            final(self).timeout_ms == old(self).timeout_ms,
            ({
                let c = bytes_mut_contents(*old(src));
                let f = bytes_mut_contents(*final(src));
                if c.len() == 0 {
                    f == c && r is None && *final(self) == *old(self)
                } else {
                    &&& exists|e: u128| (old(self).frame_start is None ==> e == 0) && #[trigger] timeout_outcome(c, f,
                        r, frame_opened(old(self).frame_start, final(self).frame_start), final(self).frame_start,
                        old(self).timeout_ms, e)
                    &&& r is None ==> final(self).frame_start is Some
                }
            }),
            ({
                let c = bytes_mut_contents(*old(src));
                old(self).timeout_ms == 0 && c.len() > 0 ==> emitted_all(c, bytes_mut_contents(*final(src)), r)
            }),
    {
        if buf_len(src) == 0 {
            return None;
        }
        let now = instant_now();
        let start = match self.frame_start {
            Some(s) => s,
            None => now,
        };
        self.frame_start = Some(start);
        let elapsed = millis_between(&now, &start);
        let ghost c = bytes_mut_contents(*src);
        let r = self.decode_elapsed(src, elapsed);
        proof {
            assert(timeout_outcome(c, bytes_mut_contents(*src), r, frame_opened(old(self).frame_start,
                self.frame_start), self.frame_start, self.timeout_ms, elapsed));
        }
        r
    }

    /// The transport went quiet: emits whatever is buffered.
    pub fn decode_timeout(&mut self, src: &mut bytes::BytesMut) -> (r: Option<Message>)
        ensures
            final(self).timeout_ms == old(self).timeout_ms,
            ({
                let c = bytes_mut_contents(*old(src));
                let f = bytes_mut_contents(*final(src));
                if c.len() == 0 {
                    f == c && r is None && *final(self) == *old(self)
                } else {
                    emitted_all(c, f, r) && final(self).frame_start is None
                }
            }),
    {
        if buf_len(src) == 0 {
            return None;
        }
        self.emit(src)
    }

    /// The frame is the payload as it is.
    pub fn encode(&mut self, item: &mut Message)
        ensures
            final(item).frame@ == old(item).payload@,
            *final(item) == (Message { frame: final(item).frame, ..*old(item) }),
    {
        item.frame = clone_bytes(&item.payload);
    }

    /// Forgets the frame in progress.
    pub fn reset(&mut self)
        ensures
            final(self).timeout_ms == old(self).timeout_ms,
            final(self).frame_start is None,
    {
        self.frame_start = None;
    }

    /// Applies the configured timeout (50 ms when unset; the integer is truncated to 32 bits
    /// as the configuration layer does).
    pub fn config(&mut self, timeout_ms: Option<i64>)
        ensures
            final(self).timeout_ms == match timeout_ms {
                Some(t) => t as u32,
                None => 50u32,
            },
            final(self).frame_start == old(self).frame_start,
    {
        self.timeout_ms = match timeout_ms {
            Some(t) => t as u32,
            None => 50,
        };
    }
}

} // verus!
