use vstd::prelude::*;
use crate::widget::{WidgetId, ActionFlags};
use crate::table::SelectTableRow;
use crate::property_list::{UpdateKey, UpdateValue, InsertProperty, DeleteProperty};

verus! {

/// The request to quit the application.
#[derive(Debug, Clone, Copy, PartialEq, Eq, Structural)]
pub struct AppQuit;

/// What a message carries.  `Consumed` is left behind where a receiver
/// has taken the data.
#[derive(Debug)]
pub enum MessageData {
    SelectTableRow(SelectTableRow),
    UpdateKey(UpdateKey),
    UpdateValue(UpdateValue),
    InsertProperty(InsertProperty),
    DeleteProperty(DeleteProperty),
    AppQuit(AppQuit),
    Consumed,
}

/// The kinds of data a message can carry.
#[derive(Debug, Clone, Copy, PartialEq, Eq, Structural)]
pub enum MessageKind {
    SelectTableRow,
    UpdateKey,
    UpdateValue,
    InsertProperty,
    DeleteProperty,
    AppQuit,
    Consumed,
}

/// The kind of `d`.
pub open spec fn kind_of(d: MessageData) -> MessageKind {
    match d {
        MessageData::SelectTableRow(_) => MessageKind::SelectTableRow,
        MessageData::UpdateKey(_) => MessageKind::UpdateKey,
        MessageData::UpdateValue(_) => MessageKind::UpdateValue,
        MessageData::InsertProperty(_) => MessageKind::InsertProperty,
        MessageData::DeleteProperty(_) => MessageKind::DeleteProperty,
        MessageData::AppQuit(_) => MessageKind::AppQuit,
        MessageData::Consumed => MessageKind::Consumed,
    }
}

/// A message between widgets: its data and whether it goes on to the
/// next receiver.
#[derive(Debug)]
pub struct Message {
    pub data: MessageData,
    pub propergate: bool,
}

impl Message {
    /// A message with `data` that propagates.
    pub fn new(data: MessageData) -> (r: Self)
        ensures
            r.data == data,
            r.propergate,
    {
        Message { data, propergate: true }
    }

    pub fn propergate(&self) -> (r: bool)
        ensures
            r == self.propergate,
    {
        self.propergate
    }

    /// No further receiver gets the message.
    pub fn stop_propergation(&mut self)
        ensures
            !final(self).propergate,
            final(self).data == old(self).data,
    {
        self.propergate = false;
    }

    pub fn data(&self) -> (r: &MessageData)
        ensures
            *r == self.data,
    {
        &self.data
    }

    /// The message carries data of kind `kind`.
    pub fn is(&self, kind: MessageKind) -> (r: bool)
        ensures
            r == (kind_of(self.data) == kind),
    {
        kind_of_exec(&self.data) == kind
    }

    /// A receiver has taken the data.
    pub fn is_consumed(&self) -> (r: bool)
        ensures
            r == (self.data is Consumed),
    {
        match self.data {
            MessageData::Consumed => true,
            _ => false,
        }
    }

    /// Takes the data where it is of kind `kind`: it is replaced by
    /// `Consumed` and the message stops propagating.  Otherwise nothing
    /// changes and the result is `None`.
    pub fn consume(&mut self, kind: MessageKind) -> (r: Option<MessageData>)
        ensures
            kind_of(old(self).data) == kind ==> r == Some(old(self).data) && final(self).data is Consumed
                && !final(self).propergate,
            kind_of(old(self).data) != kind ==> r is None && final(self).data == old(self).data
                && final(self).propergate == old(self).propergate,
    {
        if kind_of_exec(&self.data) != kind {
            return None;
        }
        let mut temp = MessageData::Consumed;
        std::mem::swap(&mut temp, &mut self.data);
        self.stop_propergation();
        Some(temp)
    }
}

/// The kind of `d`.
pub fn kind_of_exec(d: &MessageData) -> (r: MessageKind)
    ensures
        r == kind_of(*d),
{
    match d {
        MessageData::SelectTableRow(_) => MessageKind::SelectTableRow,
        MessageData::UpdateKey(_) => MessageKind::UpdateKey,
        MessageData::UpdateValue(_) => MessageKind::UpdateValue,
        MessageData::InsertProperty(_) => MessageKind::InsertProperty,
        MessageData::DeleteProperty(_) => MessageKind::DeleteProperty,
        MessageData::AppQuit(_) => MessageKind::AppQuit,
        MessageData::Consumed => MessageKind::Consumed,
    }
}

/// The messages that wait to be delivered, in the order they were sent.
#[derive(Debug)]
pub struct MessageBroker {
    pub messages: Vec<Message>,
}

impl MessageBroker {
    pub fn new() -> (r: Self)
        ensures
            r.messages@.len() == 0,
    {
        MessageBroker { messages: Vec::new() }
    }

    pub fn has_pending(&self) -> (r: bool)
        ensures
            r == (self.messages@.len() > 0),
    {
        self.messages.len() > 0
    }

    /// Sends `data` in a new message.
    pub fn dispatch(&mut self, data: MessageData)
        ensures
            final(self).messages@.len() == old(self).messages@.len() + 1,
            final(self).messages@.take(old(self).messages@.len() as int) == old(self).messages@,
            final(self).messages@.last().data == data,
            final(self).messages@.last().propergate,
    {
        self.dispatch_message(Message::new(data));
    }

    /// Sends `message`.
    pub fn dispatch_message(&mut self, message: Message)
        ensures
            final(self).messages@ == old(self).messages@.push(message),
    {
        self.messages.push(message);
    }

    /// Takes the waiting messages, in order, to be delivered.
    pub fn take_messages(&mut self) -> (r: Vec<Message>)
        ensures
            r@ == old(self).messages@,
            final(self).messages@.len() == 0,
    {
        let mut taken: Vec<Message> = Vec::new();
        std::mem::swap(&mut taken, &mut self.messages);
        taken
    }
}

/// Whether each message goes on to further receivers.
pub open spec fn propagating(batch: Seq<Message>) -> Seq<bool> {
    batch.map_values(|m: Message| m.propergate)
}

/// The next message and receiver a delivery reaches from message `m` and
/// receiver `k`, of `n` receivers: each message goes to the receivers in
/// turn until one stops it; `None` once the batch is done.
pub open spec fn next_target(props: Seq<bool>, m: int, k: int, n: int) -> Option<(int, int)>
    decreases props.len() - m,
{
    if m < 0 || m >= props.len() {
        None
    } else if 0 <= k < n && props[m] {
        Some((m, k))
    } else {
        next_target(props, m + 1, 0, n)
    }
}

proof fn lemma_next_target_bounds(props: Seq<bool>, m: int, k: int, n: int)
    requires
        0 <= m,
        0 <= k,
    ensures
        next_target(props, m, k, n) matches Some((m2, k2)) ==> m <= m2 < props.len() && 0 <= k2 < n && props[m2]
            && (m2 == m ==> k2 == k),
    decreases props.len() - m,
{
    if m < props.len() && !(k < n && props[m]) {
        lemma_next_target_bounds(props, m + 1, 0, n);
    }
}

/// What a delivery asks for next.
#[derive(Debug, Clone, Copy, PartialEq, Eq, Structural)]
pub enum DeliveryStep {
    /// Hand message `message` of the batch to receiver `receiver`, then
    /// report its actions with [`Delivery::delivered`].
    Deliver { message: usize, receiver: usize },
    /// Every message is delivered; the actions the receivers asked for.
    Done(ActionFlags),
}

/// A delivery of the waiting messages to `receivers` receivers: the batch
/// being delivered, the message and receiver it has reached, and the
/// actions asked for so far.
#[derive(Debug)]
pub struct Delivery {
    pub batch: Vec<Message>,
    pub message: usize,
    pub receiver: usize,
    pub receivers: usize,
    pub flags: ActionFlags,
}

impl Delivery {
    /// A delivery to `receivers` receivers that has not started.
    pub fn new(receivers: usize) -> (r: Self)
        ensures
            r.batch@.len() == 0,
            r.message == 0,
            r.receiver == 0,
            r.receivers == receivers,
            r.flags.bits == 0,
    {
        Delivery { batch: Vec::new(), message: 0, receiver: 0, receivers, flags: ActionFlags::empty() }
    }

    /// The receiver handed the message returned these actions: they join
    /// the others, and the message goes on to the next receiver.
    pub fn delivered(&mut self, flags: ActionFlags)
        requires
            old(self).receiver < old(self).receivers,
        ensures
            final(self).flags.bits == old(self).flags.bits | flags.bits,
            final(self).receiver == old(self).receiver + 1,
            final(self).message == old(self).message,
            final(self).receivers == old(self).receivers,
            final(self).batch@ == old(self).batch@,
    {
        self.flags = self.flags.union(flags);
        self.receiver = self.receiver + 1;
    }

    /// The next message and receiver in the batch; see [`next_target`].
    fn next_in_batch(&self) -> (r: Option<(usize, usize)>)
        ensures
            r matches Some((m, k)) ==> next_target(propagating(self.batch@), self.message as int, self.receiver as int, self.receivers as int) == Some((m as int, k as int)),
            r is None ==> next_target(propagating(self.batch@), self.message as int, self.receiver as int, self.receivers as int) is None,
    {
        let ghost props = propagating(self.batch@);
        let n = self.batch.len();
        let mut m = self.message;
        let mut k = self.receiver;
        while m < n
            invariant
                n == self.batch@.len(),
                props == propagating(self.batch@),
                next_target(props, m as int, k as int, self.receivers as int)
                    == next_target(props, self.message as int, self.receiver as int, self.receivers as int),
            decreases n - m,
        {
            if k < self.receivers && self.batch[m].propergate {
                return Some((m, k));
            }
            m = m + 1;
            k = 0;
        }
        None
    }
}

impl MessageBroker {
    /// The next step of delivering the waiting messages: the next message
    /// of the batch and receiver it goes to; where the batch is done, the
    /// messages sent meanwhile become the next batch; where there are none,
    /// the delivery is done.
    pub fn next_delivery(&mut self, d: &mut Delivery) -> (r: DeliveryStep)
        ensures
            final(d).receivers == old(d).receivers,
            final(d).flags == old(d).flags,
            ({
                let n = old(d).receivers as int;
                let t0 = next_target(propagating(old(d).batch@), old(d).message as int, old(d).receiver as int, n);
                let t1 = next_target(propagating(old(self).messages@), 0, 0, n);
                if t0 is Some {
                    &&& final(self).messages@ == old(self).messages@
                    &&& final(d).batch@ == old(d).batch@
                    &&& r == DeliveryStep::Deliver { message: t0.unwrap().0 as usize, receiver: t0.unwrap().1 as usize }
                } else if old(self).messages@.len() == 0 {
                    &&& final(self).messages@ == old(self).messages@
                    &&& final(d).batch@ == old(d).batch@
                    &&& r == DeliveryStep::Done(old(d).flags)
                } else {
                    &&& final(d).batch@ == old(self).messages@
                    &&& final(self).messages@.len() == 0
                    &&& r == (match t1 {
                        Some((m, k)) => DeliveryStep::Deliver { message: m as usize, receiver: k as usize },
                        None => DeliveryStep::Done(old(d).flags),
                    })
                }
            }),
            r matches DeliveryStep::Deliver { message, receiver } ==> final(d).message == message && final(d).receiver == receiver
                && message < final(d).batch@.len() && receiver < final(d).receivers && final(d).batch@[message as int].propergate,
    {
        proof {
            lemma_next_target_bounds(propagating(d.batch@), d.message as int, d.receiver as int, d.receivers as int);
        }
        match d.next_in_batch() {
            Some((m, k)) => {
                d.message = m;
                d.receiver = k;
                return DeliveryStep::Deliver { message: m, receiver: k };
            },
            None => {},
        }
        if self.messages.len() == 0 {
            return DeliveryStep::Done(d.flags);
        }
        d.batch = self.take_messages();
        d.message = 0;
        d.receiver = 0;
        proof {
            lemma_next_target_bounds(propagating(d.batch@), 0, 0, d.receivers as int);
        }
        match d.next_in_batch() {
            Some((m, k)) => {
                d.message = m;
                d.receiver = k;
                DeliveryStep::Deliver { message: m, receiver: k }
            },
            None => DeliveryStep::Done(d.flags),
        }
    }
}

} // verus!
