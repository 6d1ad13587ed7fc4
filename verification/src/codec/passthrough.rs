use vstd::prelude::*;
use crate::buffer::{buf_len, buf_split_to, buf_to_vec, bytes_mut_contents};
use crate::message::{current_timestamp, is_fresh_message, Message, MessageType, PayloadType};

verus! {

/// Passes everything buffered on as one message; the default codec.
#[derive(Debug, Clone, Copy, Default)]
pub struct PassthroughCodec;

impl PassthroughCodec {
    pub fn new() -> PassthroughCodec {
        PassthroughCodec
    }

    /// Takes all buffered bytes as one message (payload and frame alike); nothing when empty.
    pub fn decode(&mut self, src: &mut bytes::BytesMut) -> (r: Option<Message>)
        ensures
            ({
                let c = bytes_mut_contents(*old(src));
                let f = bytes_mut_contents(*final(src));
                if c.len() == 0 {
                    f == c && r is None
                } else {
                    f == Seq::<u8>::empty() && (r matches Some(m) && is_fresh_message(
                        m, MessageType::Rx, PayloadType::Binary, c, c, m.timestamp))
                }
            }),
    {
        let n = buf_len(src);
        if n == 0 {
            return None;
        }
        let data = buf_split_to(src, n);
        let payload = buf_to_vec(&data);
        let frame = buf_to_vec(&data);
        proof {
            let c = bytes_mut_contents(*old(src));
            assert(c.take(n as int) =~= c);
            assert(c.skip(n as int) =~= Seq::<u8>::empty());
        }
        let now = current_timestamp();
        Some(Message::rx(PayloadType::Binary, payload, frame, now))
    }

    /// After the transport went quiet: the same as `decode`.
    pub fn decode_timeout(&mut self, src: &mut bytes::BytesMut) -> (r: Option<Message>)
        ensures
            ({
                let c = bytes_mut_contents(*old(src));
                let f = bytes_mut_contents(*final(src));
                if c.len() == 0 {
                    f == c && r is None
                } else {
                    f == Seq::<u8>::empty() && (r matches Some(m) && is_fresh_message(
                        m, MessageType::Rx, PayloadType::Binary, c, c, m.timestamp))
                }
            }),
    {
        self.decode(src)
    }

    /// The frame is the payload as it is.
    pub fn encode(&mut self, item: &mut Message)
        ensures
            final(item).frame@ == old(item).payload@,
            *final(item) == (Message { frame: final(item).frame, ..*old(item) }),
    {
        item.frame = clone_bytes(&item.payload);
    }
}

/// A copy of a byte vector.
pub fn clone_bytes(v: &Vec<u8>) -> (r: Vec<u8>)
    ensures
        r@ == v@,
{
    let r = crate::util::copy_range(v.as_slice(), 0, v.len());
    assert(v@.subrange(0, v@.len() as int) =~= v@);
    r
}

} // verus!
