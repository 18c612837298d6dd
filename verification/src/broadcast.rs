//! The broadcast subsystem: the editor host subscribes messages to events,
//! and a triggered event hands back every subscribed message, in
//! subscription order, for the host to dispatch.

use vstd::prelude::*;

verus! {

/// An event the editor can broadcast.
#[derive(Clone, Copy, PartialEq, Eq, Structural, Debug)]
pub enum BroadcastEvent {
    DocumentIsDirty,
    SelectionChanged,
    ToolAbort,
}

/// A message the host dispatches.
#[derive(Debug)]
pub enum Message {
    NoOp,
    Broadcast(Box<BroadcastMessage>),
    RequestRender(u64),
}

/// A broadcast instruction.
#[derive(Debug)]
pub enum BroadcastMessage {
    TriggerEvent(BroadcastEvent),
    SubscribeEvent { on: BroadcastEvent, send: Box<Message> },
    UnsubscribeEvent { on: BroadcastEvent, message: Box<Message> },
}

/// Structural equality of messages.
pub fn message_eq(a: &Message, b: &Message) -> (r: bool)
    ensures
        r == (a == b),
    decreases a,
{
    match (a, b) {
        (Message::NoOp, Message::NoOp) => true,
        (Message::RequestRender(x), Message::RequestRender(y)) => x == y,
        (Message::Broadcast(x), Message::Broadcast(y)) => broadcast_message_eq(x, y),
        _ => {
            proof {
                assert(a != b);
            }
            false
        },
    }
}

pub fn broadcast_message_eq(a: &BroadcastMessage, b: &BroadcastMessage) -> (r: bool)
    ensures
        r == (a == b),
    decreases a,
{
    match (a, b) {
        (BroadcastMessage::TriggerEvent(x), BroadcastMessage::TriggerEvent(y)) => x == y,
        (
            BroadcastMessage::SubscribeEvent { on: o1, send: s1 },
            BroadcastMessage::SubscribeEvent { on: o2, send: s2 },
        ) => o1 == o2 && message_eq(s1, s2),
        (
            BroadcastMessage::UnsubscribeEvent { on: o1, message: m1 },
            BroadcastMessage::UnsubscribeEvent { on: o2, message: m2 },
        ) => o1 == o2 && message_eq(m1, m2),
        _ => {
            proof {
                assert(a != b);
            }
            false
        },
    }
}

/// Deep copy of a message.
pub fn clone_message(m: &Message) -> (r: Message)
    ensures
        r == *m,
    decreases m,
{
    match m {
        Message::NoOp => Message::NoOp,
        Message::RequestRender(x) => Message::RequestRender(*x),
        Message::Broadcast(b) => Message::Broadcast(Box::new(clone_broadcast_message(b))),
    }
}

pub fn clone_broadcast_message(m: &BroadcastMessage) -> (r: BroadcastMessage)
    ensures
        r == *m,
    decreases m,
{
    match m {
        BroadcastMessage::TriggerEvent(e) => BroadcastMessage::TriggerEvent(*e),
        BroadcastMessage::SubscribeEvent { on, send } => BroadcastMessage::SubscribeEvent {
            on: *on,
            send: Box::new(clone_message(send)),
        },
        BroadcastMessage::UnsubscribeEvent { on, message } => BroadcastMessage::UnsubscribeEvent {
            on: *on,
            message: Box::new(clone_message(message)),
        },
    }
}

/// The messages subscribed to `on`, in subscription order, from entry `j`.
pub open spec fn sent_for(subs: Seq<(BroadcastEvent, Message)>, on: BroadcastEvent, j: int) -> Seq<
    Message,
>
    decreases subs.len() - j when 0 <= j <= subs.len()
{
    if j >= subs.len() {
        Seq::empty()
    } else if subs[j].0 == on {
        seq![subs[j].1] + sent_for(subs, on, j + 1)
    } else {
        sent_for(subs, on, j + 1)
    }
}

/// Index of the first subscription equal to `(on, message)`, from `j`.
pub open spec fn sub_find(
    subs: Seq<(BroadcastEvent, Message)>,
    on: BroadcastEvent,
    message: Message,
    j: int,
) -> Option<int>
    decreases subs.len() - j when 0 <= j <= subs.len()
{
    if j >= subs.len() {
        None
    } else if subs[j] == (on, message) {
        Some(j)
    } else {
        sub_find(subs, on, message, j + 1)
    }
}

/// The subscription table.
#[derive(Debug)]
pub struct BroadcastMessageHandler {
    pub subscriptions: Vec<(BroadcastEvent, Message)>,
}

impl BroadcastMessageHandler {
    /// No subscriptions yet.
    pub fn new() -> (r: BroadcastMessageHandler)
        ensures
            r.subscriptions@ == Seq::<(BroadcastEvent, Message)>::empty(),
    {
        let r = BroadcastMessageHandler { subscriptions: Vec::new() };
        proof {
            assert(r.subscriptions@ =~= Seq::<(BroadcastEvent, Message)>::empty());
        }
        r
    }

    /// Subscribe `send` to `on`; it will be handed out on every trigger.
    pub fn subscribe(&mut self, on: BroadcastEvent, send: Message)
        ensures
            final(self).subscriptions@ == old(self).subscriptions@.push((on, send)),
    {
        self.subscriptions.push((on, send));
    }

    /// Drop the first subscription equal to `(on, message)`, if any.
    pub fn unsubscribe(&mut self, on: BroadcastEvent, message: &Message)
        ensures
            sub_find(old(self).subscriptions@, on, *message, 0) matches Some(i) ==> final(self).subscriptions@ == old(self).subscriptions@.remove(i),
            sub_find(old(self).subscriptions@, on, *message, 0) is None ==> final(self).subscriptions@ == old(self).subscriptions@,
    {
        let ghost subs0 = self.subscriptions@;
        let n = self.subscriptions.len();
        let mut j: usize = 0;
        while j < n
            invariant
                j <= n,
                n == self.subscriptions.len(),
                self.subscriptions@ == subs0,
                subs0 == old(self).subscriptions@,
                sub_find(subs0, on, *message, 0) == sub_find(subs0, on, *message, j as int),
            decreases n - j,
        {
            let hit = self.subscriptions[j].0 == on && message_eq(&self.subscriptions[j].1, message);
            if hit {
                proof {
                    assert(subs0[j as int] == (on, *message));
                    assert(sub_find(subs0, on, *message, j as int) == Some(j as int));
                    assert(sub_find(subs0, on, *message, 0) == Some(j as int));
                }
                self.subscriptions.remove(j);
                proof {
                    assert(self.subscriptions@ =~= subs0.remove(j as int));
                }
                return ;
            }
            proof {
                assert(subs0[j as int] != (on, *message));
            }
            j = j + 1;
        }
    }

    /// All messages subscribed to `on`, in subscription order.
    pub fn trigger(&self, on: BroadcastEvent) -> (r: Vec<Message>)
        ensures
            r@ == sent_for(self.subscriptions@, on, 0),
    {
        let ghost subs = self.subscriptions@;
        let n = self.subscriptions.len();
        let mut out: Vec<Message> = Vec::new();
        let mut j: usize = 0;
        while j < n
            invariant
                j <= n,
                n == self.subscriptions.len(),
                subs == self.subscriptions@,
                sent_for(subs, on, 0) == out@ + sent_for(subs, on, j as int),
            decreases n - j,
        {
            let ghost out0 = out@;
            if self.subscriptions[j].0 == on {
                out.push(clone_message(&self.subscriptions[j].1));
                proof {
                    assert(out@ =~= out0 + seq![subs[j as int].1]);
                    assert(out0 + (seq![subs[j as int].1] + sent_for(subs, on, j as int + 1)) =~= (
                    out0 + seq![subs[j as int].1]) + sent_for(subs, on, j as int + 1));
                }
            }
            j = j + 1;
        }
        proof {
            assert(out@ =~= out@ + sent_for(subs, on, n as int));
        }
        out
    }

    /// Handle one broadcast instruction, returning the messages the host
    /// must now dispatch.
    pub fn process_message(&mut self, message: BroadcastMessage) -> (r: Vec<Message>)
        ensures
            old(self) == old(self),
            message matches BroadcastMessage::TriggerEvent(e) ==> final(self).subscriptions@ == old(self).subscriptions@ && r@ == sent_for(old(self).subscriptions@, e, 0),
            message matches BroadcastMessage::SubscribeEvent { on, send } ==> final(self).subscriptions@ == old(self).subscriptions@.push((on, *send)) && r@.len() == 0,
            message matches BroadcastMessage::UnsubscribeEvent { on, message: m } ==> r@.len() == 0
                && (sub_find(old(self).subscriptions@, on, *m, 0) matches Some(i) ==> final(self).subscriptions@ == old(self).subscriptions@.remove(i)) && (sub_find(
                old(self).subscriptions@,
                on,
                *m,
                0,
            ) is None ==> final(self).subscriptions@ == old(self).subscriptions@),
    {
        match message {
            BroadcastMessage::TriggerEvent(e) => self.trigger(e),
            BroadcastMessage::SubscribeEvent { on, send } => {
                self.subscribe(on, *send);
                Vec::new()
            },
            BroadcastMessage::UnsubscribeEvent { on, message } => {
                self.unsubscribe(on, &message);
                Vec::new()
            },
        }
    }
}

} // verus!
