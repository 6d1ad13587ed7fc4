use vstd::prelude::*;
use std::collections::HashMap;
use crate::cbrt::names::{key_datatype, key_datatype_bytes};
use crate::cbrt::parser::{frame_parts_ok, parse_at, ParseOutcome};
use crate::cbrt::scan::{scan_frame, sync_word, FrameScan};
use crate::cbrt::session::{fresh_session, session_step, SessionState};
use crate::error::TransformError;
use crate::message::{current_timestamp, find_id, first_with_id, Message};
use crate::text::{ascii_chars, ascii_string};

verus! {

/// The session of connection `id`: a fresh one until its first message.
pub open spec fn session_of(sessions: Map<u32, SessionState>, id: u32) -> SessionState {
    if sessions.contains_key(id) {
        sessions[id]
    } else {
        fresh_session(None)
    }
}

/// Whether the codec already decoded this message (it names its datatype in the metadata).
pub open spec fn decoded_by_codec(m: Message) -> bool {
    first_with_id(m.metadata@, ascii_chars(key_datatype())) is Some
}

/// Whether a payload starts with the sync word.
pub open spec fn starts_with_sync(b: Seq<u8>) -> bool {
    b.len() >= 4 && b.take(4) == sync_word()
}

/// `new` is `old` with the frame parts of `buf` appended to values, metadata and contents.
pub open spec fn appended_frame(old: Message, new: Message, buf: Seq<u8>, h: crate::cbrt::scan::FrameHeader,
    f: crate::cbrt::session::FrameFacts) -> bool {
    let nv = old.values@.len() as int;
    let nm = old.metadata@.len() as int;
    let nc = old.contents@.len() as int;
    &&& new == (Message { values: new.values, metadata: new.metadata, contents: new.contents, ..old })
    &&& new.values@.len() >= nv && new.values@.take(nv) == old.values@
    &&& new.metadata@.len() >= nm && new.metadata@.take(nm) == old.metadata@
    &&& new.contents@.len() >= nc && new.contents@.take(nc) == old.contents@
    &&& frame_parts_ok(new.values@.skip(nv), new.metadata@.skip(nm), new.contents@.skip(nc), buf, 0, h, f)
}

/// What decoding a CBRT message that arrived at `t` does, once it is known to start with the
/// sync word: the frame is decoded in its connection's session; a truncated frame leaves the
/// message alone and reports it; a rejected one also resets the session.
pub open spec fn transformed_at(
    r: Result<(), TransformError>,
    before: Map<u32, SessionState>,
    after: Map<u32, SessionState>,
    old: Message,
    new: Message,
    t: u64,
) -> bool {
    let id = old.connection_id;
    let st = session_of(before, id);
    match scan_frame(old.payload@, 0) {
        FrameScan::NeedMore => r == Err::<(), TransformError>(TransformError::Truncated) && new == old
            && after == before.insert(id, st),
        FrameScan::Reject => r == Err::<(), TransformError>(TransformError::Rejected) && new == old
            && after == before.insert(id, fresh_session(None)),
        FrameScan::Frame(h) => {
            let (st2, f) = session_step(st, h, t);
            &&& r is Ok
            &&& after == before.insert(id, st2)
            &&& appended_frame(old, new, old.payload@, h, f)
        },
    }
}

/// Appends the values, metadata and contents of `parsed` to `message`.
fn append_parts(message: &mut Message, parsed: Message)
    ensures
        *final(message) == (Message {
            values: final(message).values,
            metadata: final(message).metadata,
            contents: final(message).contents,
            ..*old(message)
        }),
        final(message).values@ == old(message).values@ + parsed.values@,
        final(message).metadata@ == old(message).metadata@ + parsed.metadata@,
        final(message).contents@ == old(message).contents@ + parsed.contents@,
{
    let mut values = parsed.values;
    let mut metadata = parsed.metadata;
    let mut contents = parsed.contents;
    message.values.append(&mut values);
    message.metadata.append(&mut metadata);
    message.contents.append(&mut contents);
}

proof fn lemma_append_split<T>(a: Seq<T>, b: Seq<T>)
    ensures
        (a + b).take(a.len() as int) == a,
        (a + b).skip(a.len() as int) == b,
{
    assert((a + b).take(a.len() as int) =~= a);
    assert((a + b).skip(a.len() as int) =~= b);
}

/// Decodes CBRT frames carried one per message, with a session per connection.
pub struct CbrtTransformer {
    pub sessions: HashMap<u32, SessionState>,
}

impl CbrtTransformer {
    pub fn new() -> (t: CbrtTransformer)
        ensures
            t.sessions@ == Map::<u32, SessionState>::empty(),
    {
        CbrtTransformer { sessions: HashMap::new() }
    }

    /// Decodes the frame in `message.payload` into its values, metadata and contents; a message
    /// the codec already decoded is left alone. Frames are timed by the message's timestamp,
    /// or by the current time when it has none.
    pub fn on_receive(&mut self, message: &mut Message) -> (r: Result<(), TransformError>)
        ensures
            decoded_by_codec(*old(message)) ==> r is Ok && *final(message) == *old(message)
                && final(self).sessions@ == old(self).sessions@,
            !decoded_by_codec(*old(message)) && !starts_with_sync(old(message).payload@) ==> r == Err::<
                (),
                TransformError,
            >(TransformError::MissingSync) && *final(message) == *old(message) && final(self).sessions@
                == old(self).sessions@,
            !decoded_by_codec(*old(message)) && starts_with_sync(old(message).payload@) && old(message).timestamp
                != 0 ==> transformed_at(r, old(self).sessions@, final(self).sessions@, *old(message),
                *final(message), old(message).timestamp),
            !decoded_by_codec(*old(message)) && starts_with_sync(old(message).payload@) ==> exists|t: u64|
                transformed_at(r, old(self).sessions@, final(self).sessions@, *old(message), *final(message), t),
    {
        broadcast use vstd::std_specs::hash::group_hash_axioms;
        let key = ascii_string(key_datatype_bytes());
        if find_id(&message.metadata, &key).is_some() {
            return Ok(());
        }
        let n = message.payload.len();
        if n < 4 || message.payload[0] != 0x43 || message.payload[1] != 0x42 || message.payload[2] != 0x52
            || message.payload[3] != 0x54 {
            proof {
                if n >= 4 {
                    let w = message.payload@.take(4);
                    assert(w[0] == message.payload@[0] && w[1] == message.payload@[1]);
                    assert(w[2] == message.payload@[2] && w[3] == message.payload@[3]);
                }
            }
            return Err(TransformError::MissingSync);
        }
        assert(message.payload@.take(4) =~= sync_word());
        let arrival_us = if message.timestamp != 0 {
            message.timestamp
        } else {
            current_timestamp()
        };
        let id = message.connection_id;
        let mut state = match self.sessions.get(&id) {
            Some(s) => *s,
            None => SessionState::new(),
        };
        let ghost st0 = state;
        assert(st0 == session_of(old(self).sessions@, id));
        let outcome = parse_at(&mut state, message.payload.as_slice(), 0, arrival_us);
        match outcome {
            ParseOutcome::Complete { frame_end: _, message: parsed, facts } => {
                self.sessions.insert(id, state);
                let ghost old_msg = *message;
                let ghost pv = parsed.values@;
                let ghost pm = parsed.metadata@;
                let ghost pc = parsed.contents@;
                append_parts(message, parsed);
                proof {
                    lemma_append_split(old_msg.values@, pv);
                    lemma_append_split(old_msg.metadata@, pm);
                    lemma_append_split(old_msg.contents@, pc);
                    assert(transformed_at(Ok(()), old(self).sessions@, self.sessions@, old_msg, *message, arrival_us));
                }
                Ok(())
            },
            ParseOutcome::NeedMore => {
                self.sessions.insert(id, state);
                proof {
                    assert(transformed_at(Err(TransformError::Truncated), old(self).sessions@, self.sessions@,
                        *message, *message, arrival_us));
                }
                Err(TransformError::Truncated)
            },
            ParseOutcome::Reject => {
                state.reset();
                self.sessions.insert(id, state);
                proof {
                    assert(transformed_at(Err(TransformError::Rejected), old(self).sessions@, self.sessions@,
                        *message, *message, arrival_us));
                }
                Err(TransformError::Rejected)
            },
        }
    }
}

impl Default for CbrtTransformer {
    fn default() -> (t: CbrtTransformer)
        ensures
            t.sessions@ == Map::<u32, SessionState>::empty(),
    {
        CbrtTransformer::new()
    }
}

} // verus!
