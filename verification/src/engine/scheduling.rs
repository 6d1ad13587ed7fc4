use vstd::prelude::*;
use crate::message::Message;

verus! {

/// Delays up to this many microseconds use the high-resolution timer.
pub const HIGH_RES_THRESHOLD_US: u64 = 1_000_000;

/// How a delay is waited out.
#[derive(Debug, Clone, Copy, PartialEq, Eq, Structural)]
pub enum DelayPlan {
    /// Nothing to wait for: a zero delay.
    Skip,
    /// Arm the high-resolution timer.
    HighRes,
    /// Sleep on the runtime's timer.
    Sleep,
}

/// How to wait `duration_us`: zero waits not at all; up to a second uses the high-resolution
/// timer when there is one; longer waits, and any wait without that timer, sleep.
pub fn delay_plan(duration_us: u64, has_timer: bool) -> (p: DelayPlan)
    ensures
        p == if duration_us == 0 {
            DelayPlan::Skip
        } else if duration_us <= HIGH_RES_THRESHOLD_US {
            if has_timer { DelayPlan::HighRes } else { DelayPlan::Sleep }
        } else {
            DelayPlan::Sleep
        },
{
    if duration_us == 0 {
        DelayPlan::Skip
    } else if duration_us <= HIGH_RES_THRESHOLD_US {
        if has_timer { DelayPlan::HighRes } else { DelayPlan::Sleep }
    } else {
        DelayPlan::Sleep
    }
}

/// Messages scheduled more than this many microseconds ahead go to the delay queue.
pub const SCHEDULE_SLACK_US: u64 = 500;

/// Where an outgoing message goes.
#[derive(Debug, Clone, Copy, PartialEq, Eq, Structural)]
pub enum SendRoute {
    /// Into the delay queue.
    Delay,
    /// Straight to the sender of this connection.
    Direct(usize),
    /// Nowhere: no such connection.
    Drop,
}

/// Where a message stamped `timestamp` for `connection_id` goes at time `now_us`, with
/// `connections` connections open: more than 500 µs ahead it waits in the delay queue;
/// otherwise straight to its connection, or nowhere when there is no such connection.
pub open spec fn send_route(timestamp: u64, connection_id: u32, now_us: u64, connections: usize) -> SendRoute {
    if timestamp > now_us + SCHEDULE_SLACK_US {
        SendRoute::Delay
    } else if (connection_id as int) < connections {
        SendRoute::Direct(connection_id as usize)
    } else {
        SendRoute::Drop
    }
}

/// Routes a message stamped `timestamp` for `connection_id` at time `now_us`, with
/// `connections` connections open.
pub fn route_send(timestamp: u64, connection_id: u32, now_us: u64, connections: usize) -> (r: SendRoute)
    ensures
        r == send_route(timestamp, connection_id, now_us, connections),
{
    if now_us <= u64::MAX - SCHEDULE_SLACK_US && timestamp > now_us + SCHEDULE_SLACK_US {
        SendRoute::Delay
    } else if (connection_id as usize) < connections {
        SendRoute::Direct(connection_id as usize)
    } else {
        SendRoute::Drop
    }
}

/// What the engine does with a batch of messages to send.
#[derive(Debug, Clone, Copy, PartialEq, Eq, Structural)]
pub enum SendBatchAction {
    /// The engine is stopped: nothing is sent, and a warning is logged.
    Refuse,
    /// Each message in turn goes through the script's send hook, then is routed.
    HookThenRoute,
}

/// The action for a batch of messages to send while the engine is `running` or not.
pub fn send_batch_action(running: bool) -> (a: SendBatchAction)
    ensures
        a == if running { SendBatchAction::HookThenRoute } else { SendBatchAction::Refuse },
{
    if running { SendBatchAction::HookThenRoute } else { SendBatchAction::Refuse }
}

/// The route of an outgoing message once the script's send hook has run on it (`hooked` is the
/// message as the hook left it): nothing is forwarded while the engine is stopped; otherwise
/// it is routed by its own timestamp and connection.
pub fn route_outgoing(running: bool, hooked: &Message, now_us: u64, connections: usize) -> (r: SendRoute)
    ensures
        !running ==> r == SendRoute::Drop,
        running ==> r == send_route(hooked.timestamp, hooked.connection_id, now_us, connections),
{
    if !running {
        return SendRoute::Drop;
    }
    route_send(hooked.timestamp, hooked.connection_id, now_us, connections)
}

/// The connection id that addresses every connection.
pub const SYSTEM_CONNECTION_ID: u32 = u32::MAX;

/// Where a command goes.
#[derive(Debug, Clone, Copy, PartialEq, Eq, Structural)]
pub enum CommandRoute {
    /// To every connection; the last response that is not empty answers.
    Broadcast,
    /// To one connection.
    One(usize),
    /// No such connection.
    NotFound,
}

/// Routes a command for `connection_id` with `connections` connections open.
pub fn route_command(connection_id: u32, connections: usize) -> (r: CommandRoute)
    ensures
        r == if connection_id == SYSTEM_CONNECTION_ID {
            CommandRoute::Broadcast
        } else if (connection_id as int) < connections {
            CommandRoute::One(connection_id as usize)
        } else {
            CommandRoute::NotFound
        },
{
    if connection_id == SYSTEM_CONNECTION_ID {
        CommandRoute::Broadcast
    } else if (connection_id as usize) < connections {
        CommandRoute::One(connection_id as usize)
    } else {
        CommandRoute::NotFound
    }
}

/// The response of a broadcast command: the last one that came.
pub fn last_response(responses: Vec<Option<Message>>) -> (r: Option<Message>)
    ensures
        match r {
            Some(m) => exists|i: int| 0 <= i < responses@.len() && #[trigger] responses@[i] == Some(m)
                && forall|j: int| i < j < responses@.len() ==> (#[trigger] responses@[j]) is None,
            None => forall|j: int| 0 <= j < responses@.len() ==> (#[trigger] responses@[j]) is None,
        },
{
    let ghost all = responses@;
    let mut rest = responses;
    while rest.len() > 0
        invariant
            all == responses@,
            all.len() >= rest@.len(),
            rest@ == all.take(rest@.len() as int),
            forall|j: int| rest@.len() <= j < all.len() ==> (#[trigger] all[j]) is None,
        decreases rest@.len(),
    {
        let ghost k = rest@.len() - 1;
        let last = rest.pop().unwrap();
        assert(all[k] == last);
        match last {
            Some(m) => {
                assert(0 <= k < all.len() && all[k] == Some(m));
                return Some(m);
            },
            None => {
                assert(rest@ =~= all.take(k));
            },
        }
    }
    None
}

/// Messages waiting for their time, in the order they were scheduled.
pub struct DelayQueue {
    pub pending: Vec<Message>,
}

/// What the delay queue does next at time `now_us`.
pub enum DelayStep {
    /// Hand this message (the earliest due) on.
    Send(Message),
    /// Wait this long for the earliest message.
    Wait(u64),
    /// Nothing is scheduled.
    Idle,
}

/// Whether the message at `i` has the earliest timestamp, and no earlier position has it too.
pub open spec fn is_earliest(s: Seq<Message>, i: int) -> bool {
    &&& 0 <= i < s.len()
    &&& forall|j: int| 0 <= j < s.len() ==> s[i].timestamp <= (#[trigger] s[j]).timestamp
    &&& forall|j: int| 0 <= j < i ==> s[i].timestamp < (#[trigger] s[j]).timestamp
}

impl DelayQueue {
    pub fn new() -> (q: DelayQueue)
        ensures
            q.pending@.len() == 0,
    {
        DelayQueue { pending: Vec::new() }
    }

    /// Schedules `msg` for its timestamp.
    pub fn schedule(&mut self, msg: Message)
        ensures
            final(self).pending@ == old(self).pending@.push(msg),
    {
        self.pending.push(msg);
    }

    /// The position of the earliest message.
    fn earliest(&self) -> (r: Option<usize>)
        ensures
            match r {
                Some(i) => is_earliest(self.pending@, i as int),
                None => self.pending@.len() == 0,
            },
    {
        let n = self.pending.len();
        if n == 0 {
            return None;
        }
        let mut best: usize = 0;
        let mut i: usize = 1;
        while i < n
            invariant
                n == self.pending@.len(),
                1 <= i <= n,
                best < i,
                forall|j: int| 0 <= j < i ==> self.pending@[best as int].timestamp <= (#[trigger] self.pending@[j]).timestamp,
                forall|j: int| 0 <= j < best ==> self.pending@[best as int].timestamp < (#[trigger] self.pending@[j]).timestamp,
            decreases n - i,
        {
            if self.pending[i].timestamp < self.pending[best].timestamp {
                best = i;
            }
            i = i + 1;
        }
        Some(best)
    }

    /// The next step at `now_us`: hand on the earliest message once its time has come (taking
    /// it out), or wait for it, or idle when nothing is scheduled.
    pub fn next_step(&mut self, now_us: u64) -> (r: DelayStep)
        ensures
            old(self).pending@.len() == 0 ==> r is Idle && final(self).pending@ == old(self).pending@,
            old(self).pending@.len() > 0 ==> exists|i: int| #[trigger] is_earliest(old(self).pending@, i) && {
                let m = old(self).pending@[i];
                if m.timestamp <= now_us {
                    r == DelayStep::Send(m) && final(self).pending@ == old(self).pending@.remove(i)
                } else {
                    r == DelayStep::Wait((m.timestamp - now_us) as u64) && final(self).pending@ == old(self).pending@
                }
            },
    {
        match self.earliest() {
            None => DelayStep::Idle,
            Some(i) => {
                let t = self.pending[i].timestamp;
                if t <= now_us {
                    let m = self.pending.remove(i);
                    DelayStep::Send(m)
                } else {
                    DelayStep::Wait(t - now_us)
                }
            },
        }
    }
}


/// The position in a repeating batch of `len` messages: which one goes next.
pub struct RepeatCursor {
    len: usize,
    next: usize,
}

impl RepeatCursor {
    #[verifier::type_invariant]
    spec fn well_formed(self) -> bool {
        self.len == 0 || self.next < self.len
    }

    /// The number of messages in the batch.
    pub closed spec fn batch_len(self) -> nat {
        self.len as nat
    }

    /// The position of the message that goes next.
    pub closed spec fn position(self) -> nat {
        self.next as nat
    }

    /// A cursor at the first of `len` messages.
    pub fn new(len: usize) -> (c: RepeatCursor)
        ensures
            c.batch_len() == len,
            c.position() == 0,
    {
        RepeatCursor { len, next: 0 }
    }

    /// The position of the message to send now; the cursor moves to the following one, and
    /// from the last back to the first. An empty batch sends nothing.
    pub fn advance(&mut self) -> (r: Option<usize>)
        ensures
            final(self).batch_len() == old(self).batch_len(),
            old(self).batch_len() == 0 ==> r is None && final(self).position() == old(self).position(),
            old(self).batch_len() > 0 ==> {
                &&& old(self).position() < old(self).batch_len()
                &&& r == Some(old(self).position() as usize)
                &&& final(self).position() == (old(self).position() + 1) % old(self).batch_len()
            },
    {
        proof {
            use_type_invariant(&*self);
        }
        if self.len == 0 {
            return None;
        }
        let cur = self.next;
        let following = if cur + 1 == self.len { 0 } else { cur + 1 };
        proof {
            if cur + 1 == self.len {
                vstd::arithmetic::div_mod::lemma_mod_self_0(self.len as int);
            } else {
                vstd::arithmetic::div_mod::lemma_small_mod((cur + 1) as nat, self.len as nat);
            }
        }
        self.next = following;
        Some(cur)
    }
}


/// The position after `k` sends from position `p` in a batch of `n` messages, one step at a
/// time as `RepeatCursor::advance` moves.
pub open spec fn position_after(p: nat, n: nat, k: nat) -> nat
    decreases k,
{
    if k == 0 { p } else { (position_after(p, n, (k - 1) as nat) + 1) % n }
}

/// A repeating batch runs round and round: `k` sends from position `p` land on `(p + k) mod n`,
/// so after `n` sends the batch starts over where it began.
pub proof fn lemma_repeat_cycles(p: nat, n: nat, k: nat)
    requires
        n > 0,
        p < n,
    ensures
        position_after(p, n, k) == (p + k) % n,
        position_after(p, n, n) == p,
{
    lemma_position_after(p, n, k);
    lemma_position_after(p, n, n);
    vstd::arithmetic::div_mod::lemma_mod_add_multiples_vanish(p as int, n as int);
    vstd::arithmetic::div_mod::lemma_small_mod(p, n);
}

proof fn lemma_position_after(p: nat, n: nat, k: nat)
    requires
        n > 0,
        p < n,
    ensures
        position_after(p, n, k) == (p + k) % n,
    decreases k,
{
    if k > 0 {
        lemma_position_after(p, n, (k - 1) as nat);
        vstd::arithmetic::div_mod::lemma_add_mod_noop_right(1, (p + k - 1) as int, n as int);
    } else {
        vstd::arithmetic::div_mod::lemma_small_mod(p, n);
    }
}

} // verus!
