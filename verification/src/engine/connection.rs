use vstd::prelude::*;
use std::collections::VecDeque;
use crate::formatter::hexdump::{format_hexdump, hexdump_highlighted, hexdump_pieces, pattern_of, pieces_match};
use crate::formatter::terminal::{format_terminal, terminal_formatted, TextEncoding};
use crate::message::{Message, MessageType};

verus! {

/// At most this many messages wait in a connection's outbox; the oldest goes first.
pub const MAX_OUTBOX_LEN: usize = 64;

/// An outbox deeper than this is reported once.
pub const OUTBOX_WARN_THRESHOLD: usize = 8;

/// How a send through a connection's transport ended.
#[derive(Debug, Clone, Copy, PartialEq, Eq, Structural)]
pub enum SendOutcome {
    /// Sent; the confirmation goes to the engine.
    Sent,
    /// The codec is busy (back-pressure): try again later.
    Pending,
    /// Accepted and dropped by the transport (no peer): stay connected.
    Discarded,
    /// Failed; `reconnectable` failures end the session, `slow` ones ask for a long pause.
    Failed { reconnectable: bool, slow: bool },
}

/// What the connection loop does after a drain attempt.
#[derive(Debug, Clone, Copy, PartialEq, Eq, Structural)]
pub enum DrainOutcome {
    Idle,
    Reconnect,
    /// Reconnect after the long pause.
    ReconnectSlowly,
}

/// What enqueuing a message did.
#[derive(Debug, Clone, Copy, PartialEq, Eq, Structural)]
pub struct EnqueueReport {
    /// The outbox was full and its oldest message was dropped.
    pub dropped_oldest: bool,
    /// The depth to report, the first time the outbox grows past the threshold.
    pub warn_depth: Option<usize>,
}

/// Messages deferred by codec back-pressure, first in first out.
pub struct Outbox {
    pub queue: VecDeque<Message>,
    /// Whether the depth warning was given.
    pub warned: bool,
}

/// The outcome of a drain attempt that failed with `outcome`.
pub open spec fn drain_outcome_of(outcome: SendOutcome) -> DrainOutcome {
    match outcome {
        SendOutcome::Failed { reconnectable: true, slow: true } => DrainOutcome::ReconnectSlowly,
        SendOutcome::Failed { reconnectable: true, slow: false } => DrainOutcome::Reconnect,
        _ => DrainOutcome::Idle,
    }
}

/// Whether a message whose send ended with `outcome` goes back to the front of the outbox.
pub open spec fn requeued(outcome: SendOutcome) -> bool {
    outcome == SendOutcome::Pending || outcome matches SendOutcome::Failed { reconnectable: true, .. }
}

impl Outbox {
    pub fn new() -> (o: Outbox)
        ensures
            o.queue@.len() == 0,
            !o.warned,
    {
        Outbox { queue: VecDeque::new(), warned: false }
    }

    /// Queues `msg` behind the others; a full outbox drops its oldest message first.
    pub fn enqueue(&mut self, msg: Message) -> (r: EnqueueReport)
        ensures
            ({
                let q = old(self).queue@;
                let kept = if q.len() >= 64 { q.drop_first() } else { q };
                &&& final(self).queue@ == kept.push(msg)
                &&& r.dropped_oldest == (q.len() >= 64)
                &&& if !old(self).warned && kept.len() + 1 > 8 {
                    r.warn_depth == Some((kept.len() + 1) as usize) && final(self).warned
                } else {
                    r.warn_depth is None && final(self).warned == old(self).warned
                }
            }),
            old(self).queue@.len() <= 64 ==> final(self).queue@.len() <= 64,
    {
        let mut dropped = false;
        if self.queue.len() >= MAX_OUTBOX_LEN {
            self.queue.pop_front();
            dropped = true;
        }
        self.queue.push_back(msg);
        let depth = self.queue.len();
        let mut warn_depth = None;
        if !self.warned && depth > OUTBOX_WARN_THRESHOLD {
            warn_depth = Some(depth);
            self.warned = true;
        }
        EnqueueReport { dropped_oldest: dropped, warn_depth }
    }

    /// Takes the oldest queued message to retry it.
    pub fn take_front(&mut self) -> (r: Option<Message>)
        ensures
            old(self).queue@.len() == 0 ==> r is None && final(self).queue@ == old(self).queue@,
            old(self).queue@.len() > 0 ==> r == Some(old(self).queue@[0]) && final(self).queue@ == old(self).queue@.drop_first(),
            final(self).warned == old(self).warned,
    {
        self.queue.pop_front()
    }

    /// Settles a retried message after its send ended with `outcome`: busy codecs and failures
    /// that end the session keep it at the front, anything else lets it go.
    pub fn settle(&mut self, msg: Message, outcome: SendOutcome) -> (r: DrainOutcome)
        ensures
            r == drain_outcome_of(outcome),
            requeued(outcome) ==> final(self).queue@ == seq![msg] + old(self).queue@,
            !requeued(outcome) ==> final(self).queue@ == old(self).queue@,
            final(self).warned == old(self).warned,
    {
        match outcome {
            SendOutcome::Sent => DrainOutcome::Idle,
            SendOutcome::Pending => {
                self.queue.push_front(msg);
                DrainOutcome::Idle
            },
            SendOutcome::Discarded => DrainOutcome::Idle,
            SendOutcome::Failed { reconnectable, slow } => {
                if reconnectable {
                    self.queue.push_front(msg);
                    if slow { DrainOutcome::ReconnectSlowly } else { DrainOutcome::Reconnect }
                } else {
                    DrainOutcome::Idle
                }
            },
        }
    }

    /// Drops what is still queued when the session ends, and says how many went.
    pub fn clear_on_reconnect(&mut self) -> (n: usize)
        ensures
            n == old(self).queue@.len(),
            final(self).queue@.len() == 0,
            final(self).warned == old(self).warned,
    {
        let n = self.queue.len();
        self.queue.clear();
        n
    }
}

/// What the connection loop does with a new outgoing message when the outbox is empty and the
/// immediate send ended with `outcome`.
#[derive(Debug, Clone, Copy, PartialEq, Eq, Structural)]
pub enum FastPathAction {
    Confirm,
    Enqueue,
    WarnDiscarded,
    Reconnect { slow: bool },
    ReportError,
}

/// The action for an immediate send that ended with `outcome`.
pub fn fast_path_action(outcome: SendOutcome) -> (a: FastPathAction)
    ensures
        a == match outcome {
            SendOutcome::Sent => FastPathAction::Confirm,
            SendOutcome::Pending => FastPathAction::Enqueue,
            SendOutcome::Discarded => FastPathAction::WarnDiscarded,
            SendOutcome::Failed { reconnectable: true, slow } => FastPathAction::Reconnect { slow },
            SendOutcome::Failed { reconnectable: false, .. } => FastPathAction::ReportError,
        },
{
    match outcome {
        SendOutcome::Sent => FastPathAction::Confirm,
        SendOutcome::Pending => FastPathAction::Enqueue,
        SendOutcome::Discarded => FastPathAction::WarnDiscarded,
        SendOutcome::Failed { reconnectable, slow } => if reconnectable {
            FastPathAction::Reconnect { slow }
        } else {
            FastPathAction::ReportError
        },
    }
}

/// The first reconnection pause, in milliseconds.
pub const INITIAL_BACKOFF_MS: u64 = 1000;

/// The longest ordinary reconnection pause, in milliseconds.
pub const MAX_BACKOFF_MS: u64 = 10000;

/// The pause after a failure the transport says would repeat: 30 s plus a jitter below 15 s.
pub const SLOW_BACKOFF_MS: u64 = 30000;
pub const SLOW_BACKOFF_JITTER_MS: u64 = 15000;

/// The pause after one more failed attempt: doubled, at most 10 s.
pub fn next_backoff(current_ms: u64) -> (r: u64)
    ensures
        r == if current_ms * 2 < MAX_BACKOFF_MS { current_ms * 2 } else { MAX_BACKOFF_MS as int },
{
    if current_ms < MAX_BACKOFF_MS / 2 {
        current_ms * 2
    } else {
        MAX_BACKOFF_MS
    }
}

/// The long pause, its jitter taken from the sub-second nanoseconds of the clock.
pub fn slow_backoff_ms(subsec_nanos: u32) -> (r: u64)
    ensures
        r == SLOW_BACKOFF_MS + (subsec_nanos as u64) % SLOW_BACKOFF_JITTER_MS,
        SLOW_BACKOFF_MS <= r < SLOW_BACKOFF_MS + SLOW_BACKOFF_JITTER_MS,
{
    SLOW_BACKOFF_MS + (subsec_nanos as u64) % SLOW_BACKOFF_JITTER_MS
}

/// Display work on a received message: text when it has no contents yet, the hexdump, and the
/// connection it came from.
pub fn finish_received(message: &mut Message, connection_id: u32, encoding: TextEncoding, highlight: &Option<Vec<u8>>)
    ensures
        exists|shown: Message| #[trigger] terminal_formatted(*old(message), shown, encoding, pattern_of(*highlight))
            && *final(message) == (Message {
                hex_contents: final(message).hex_contents,
                highlighted: final(message).highlighted,
                connection_id,
                ..shown
            }),
        pieces_match(final(message).hex_contents@, hexdump_pieces(old(message).frame@, pattern_of(*highlight))),
        final(message).highlighted == hexdump_highlighted(old(message).frame@, pattern_of(*highlight)),
{
    let h: Option<&[u8]> = match highlight {
        Some(v) => Some(v.as_slice()),
        None => None,
    };
    format_terminal(message, encoding, h);
    let ghost shown = *message;
    let copy: Option<Vec<u8>> = match highlight {
        Some(v) => Some(crate::codec::passthrough::clone_bytes(v)),
        None => None,
    };
    assert(pattern_of(copy) == pattern_of(*highlight));
    format_hexdump(message, copy);
    message.connection_id = connection_id;
}


/// Before sending: a message without a frame goes out as its payload.
pub fn frame_for_send(message: &mut Message)
    ensures
        old(message).frame@.len() == 0 ==> *final(message) == (Message { frame: final(message).frame, ..*old(message) })
            && final(message).frame@ == old(message).payload@,
        old(message).frame@.len() > 0 ==> *final(message) == *old(message),
{
    if message.frame.len() == 0 {
        message.frame = crate::codec::passthrough::clone_bytes(&message.payload);
    }
}

/// After sending: display work on the sent message (text when it has no contents yet, the
/// hexdump), then the confirmation of it for connection `connection_id`, stamped `timestamp`:
/// its frame, payload, metadata and display, and no values.
pub fn finish_sent(message: Message, connection_id: u32, encoding: TextEncoding, highlight: &Option<Vec<u8>>, timestamp: u64)
    -> (confirm: Message)
    ensures
        exists|shown: Message| #[trigger] terminal_formatted(message, shown, encoding, pattern_of(*highlight))
            && confirm == (Message {
                message_type: MessageType::Tx,
                connection_id,
                timestamp,
                values: confirm.values,
                hex_contents: confirm.hex_contents,
                highlighted: confirm.highlighted,
                ..shown
            }),
        confirm.values@.len() == 0,
        pieces_match(confirm.hex_contents@, hexdump_pieces(message.frame@, pattern_of(*highlight))),
        confirm.highlighted == hexdump_highlighted(message.frame@, pattern_of(*highlight)),
{
    let mut m = message;
    let h: Option<&[u8]> = match highlight {
        Some(v) => Some(v.as_slice()),
        None => None,
    };
    format_terminal(&mut m, encoding, h);
    let ghost shown = m;
    let copy: Option<Vec<u8>> = match highlight {
        Some(v) => Some(crate::codec::passthrough::clone_bytes(v)),
        None => None,
    };
    assert(pattern_of(copy) == pattern_of(*highlight));
    format_hexdump(&mut m, copy);
    Message {
        message_type: MessageType::Tx,
        connection_id,
        timestamp,
        payload_type: m.payload_type,
        payload: m.payload,
        frame: m.frame,
        values: Vec::new(),
        metadata: m.metadata,
        contents: m.contents,
        hex_contents: m.hex_contents,
        highlighted: m.highlighted,
        display_hex: m.display_hex,
    }
}


/// Where a connection's reconnection loop stands: the pause before the next attempt, and
/// whether an attempt failed or a session ended (so the next attempt waits first).
#[derive(Debug, Clone, Copy, PartialEq, Eq, Structural)]
pub struct ReconnectState {
    pub backoff_ms: u64,
    pub reconnecting: bool,
}

/// What happens to a connection's lifecycle.
#[derive(Debug, Clone, Copy, PartialEq, Eq, Structural)]
pub enum ConnectEvent {
    /// The loop comes round to a new attempt.
    Attempt,
    /// The codec could not be created.
    CodecFailed,
    /// The transport could not be created; `subsec_nanos` is the clock's jitter source.
    TransportFailed { reconnectable: bool, slow: bool, subsec_nanos: u32 },
    /// The transformer could not be created.
    TransformerFailed,
    /// The transport is up and the session runs.
    Connected,
    /// The running session ended and should be retried (`slow` when the failure would repeat).
    SessionEnded { slow: bool, subsec_nanos: u32 },
    /// The engine cancelled the connection.
    Cancelled,
}

/// What the reconnection loop does next.
#[derive(Debug, Clone, Copy, PartialEq, Eq, Structural)]
pub enum ConnectAction {
    /// Wait this many milliseconds, then create codec and transport.
    WaitThenConnect(u64),
    /// Create codec and transport now.
    Connect,
    /// Give up on this connection.
    Stop,
    /// Go back round the loop.
    Retry,
    /// Run the session.
    Run,
}

/// The reconnection policy: the first attempt goes at once and later ones wait, the pause
/// doubling up to 10 s after each wait; a successful connect resets it to 1 s; a failure the
/// transport says would repeat waits 30 s plus jitter; configuration failures (codec,
/// transformer, a transport error that is not worth retrying) and cancellation stop.
pub open spec fn connect_next(s: ReconnectState, e: ConnectEvent) -> (ReconnectState, ConnectAction) {
    match e {
        ConnectEvent::Attempt => if s.reconnecting {
            (ReconnectState {
                backoff_ms: if s.backoff_ms * 2 < MAX_BACKOFF_MS { (s.backoff_ms * 2) as u64 } else { MAX_BACKOFF_MS },
                ..s
            }, ConnectAction::WaitThenConnect(s.backoff_ms))
        } else {
            (s, ConnectAction::Connect)
        },
        ConnectEvent::TransportFailed { reconnectable, slow, subsec_nanos } => if reconnectable {
            (ReconnectState {
                backoff_ms: if slow { (SLOW_BACKOFF_MS + (subsec_nanos as u64) % SLOW_BACKOFF_JITTER_MS) as u64 } else { s.backoff_ms },
                reconnecting: true,
            }, ConnectAction::Retry)
        } else {
            (s, ConnectAction::Stop)
        },
        ConnectEvent::Connected => (ReconnectState { backoff_ms: INITIAL_BACKOFF_MS, ..s }, ConnectAction::Run),
        ConnectEvent::SessionEnded { slow, subsec_nanos } => (ReconnectState {
            backoff_ms: if slow { (SLOW_BACKOFF_MS + (subsec_nanos as u64) % SLOW_BACKOFF_JITTER_MS) as u64 } else { s.backoff_ms },
            reconnecting: true,
        }, ConnectAction::Retry),
        _ => (s, ConnectAction::Stop),
    }
}

impl ReconnectState {
    /// Before the first attempt: a 1 s pause, not yet reconnecting.
    pub fn new() -> (s: ReconnectState)
        ensures
            s.backoff_ms == INITIAL_BACKOFF_MS,
            !s.reconnecting,
    {
        ReconnectState { backoff_ms: INITIAL_BACKOFF_MS, reconnecting: false }
    }

    /// Takes `event`, giving the next action.
    pub fn step(&mut self, event: ConnectEvent) -> (a: ConnectAction)
        ensures
            (*final(self), a) == connect_next(*old(self), event),
    {
        match event {
            ConnectEvent::Attempt => if self.reconnecting {
                let wait = self.backoff_ms;
                self.backoff_ms = next_backoff(self.backoff_ms);
                ConnectAction::WaitThenConnect(wait)
            } else {
                ConnectAction::Connect
            },
            ConnectEvent::TransportFailed { reconnectable, slow, subsec_nanos } => if reconnectable {
                if slow {
                    self.backoff_ms = slow_backoff_ms(subsec_nanos);
                }
                self.reconnecting = true;
                ConnectAction::Retry
            } else {
                ConnectAction::Stop
            },
            ConnectEvent::Connected => {
                self.backoff_ms = INITIAL_BACKOFF_MS;
                ConnectAction::Run
            },
            ConnectEvent::SessionEnded { slow, subsec_nanos } => {
                if slow {
                    self.backoff_ms = slow_backoff_ms(subsec_nanos);
                }
                self.reconnecting = true;
                ConnectAction::Retry
            },
            _ => ConnectAction::Stop,
        }
    }
}

/// Whether a received message goes through the connection's transformer: only when there is
/// one and the codec left the message without values.
pub fn wants_transform(has_transformer: bool, message: &Message) -> (r: bool)
    ensures
        r == (has_transformer && message.values@.len() == 0),
{
    has_transformer && message.values.len() == 0
}

/// A command a connection answers itself, or passes to its transport.
pub enum ConnectionCommand {
    /// Highlight these bytes from now on (`None` when the command carried no bytes).
    SetHighlight(Option<Vec<u8>>),
    /// Stop highlighting.
    ClearHighlight,
    /// Any other command, for the transport.
    Other,
}

/// How a connection answers a command.
#[derive(Debug, Clone, Copy, PartialEq, Eq, Structural)]
pub enum CommandReply {
    /// Done: a success response.
    Success,
    /// Refused: an error response saying the `bytes` parameter is missing.
    MissingBytes,
    /// Handed to the transport, which gives the answer.
    Forward,
}

/// Handles a command against the connection's highlight: setting it needs bytes (without them
/// the highlight stays and the command is refused); clearing always succeeds; anything else
/// goes to the transport with the highlight unchanged.
pub fn handle_highlight_command(command: ConnectionCommand, highlight: &mut Option<Vec<u8>>) -> (r: CommandReply)
    ensures
        match command {
            ConnectionCommand::SetHighlight(Some(b)) => r == CommandReply::Success && *final(highlight) == Some(b),
            ConnectionCommand::SetHighlight(None) => r == CommandReply::MissingBytes && *final(highlight) == *old(highlight),
            ConnectionCommand::ClearHighlight => r == CommandReply::Success && *final(highlight) is None,
            ConnectionCommand::Other => r == CommandReply::Forward && *final(highlight) == *old(highlight),
        },
{
    match command {
        ConnectionCommand::SetHighlight(Some(b)) => {
            *highlight = Some(b);
            CommandReply::Success
        },
        ConnectionCommand::SetHighlight(None) => CommandReply::MissingBytes,
        ConnectionCommand::ClearHighlight => {
            *highlight = None;
            CommandReply::Success
        },
        ConnectionCommand::Other => CommandReply::Forward,
    }
}

} // verus!
