//! The channels that connect the engine with the parts around it.

use crossbeam_channel::{Receiver, Sender};
use vstd::prelude::*;

use crate::midi::{LogMessage, MidiOutCommand};

verus! {

/// The sending end of a channel of the `crossbeam_channel` crate.
#[verifier::external_type_specification]
#[verifier::external_body]
#[verifier::reject_recursive_types(T)]
pub struct ExSender<T>(Sender<T>);

/// The receiving end of a channel of the `crossbeam_channel` crate.
#[verifier::external_type_specification]
#[verifier::external_body]
#[verifier::reject_recursive_types(T)]
pub struct ExReceiver<T>(Receiver<T>);

/// The limit of the command channel that both ends belong to; nothing where
/// they belong to different channels.
pub uninterp spec fn command_link(
    sender: Sender<MidiOutCommand>,
    receiver: Receiver<MidiOutCommand>,
) -> Option<nat>;

/// The limit of the log channel that both ends belong to; nothing where they
/// belong to different channels.
pub uninterp spec fn log_link(sender: Sender<LogMessage>, receiver: Receiver<LogMessage>) -> Option<
    nat,
>;

/// Why a channel did not take a message, with the message.
#[derive(Debug)]
pub enum SendFailure<T> {
    /// The channel holds as many messages as it can.
    Full(T),
    /// The receiving end is gone.
    Disconnected(T),
}

impl<T> SendFailure<T> {
    /// The message that was not sent.
    pub open spec fn message(self) -> T {
        match self {
            SendFailure::Full(m) => m,
            SendFailure::Disconnected(m) => m,
        }
    }
}

/// What became of a message that was to be sent.
pub enum Delivery {
    /// The channel took it.
    Taken,
    /// The channel was full.
    Full,
    /// The receiving end was gone.
    Disconnected,
}

/// What a result says became of a message.
pub open spec fn delivery<T>(r: Result<(), SendFailure<T>>) -> Delivery {
    match r {
        Ok(_) => Delivery::Taken,
        Err(SendFailure::Full(_)) => Delivery::Full,
        Err(SendFailure::Disconnected(_)) => Delivery::Disconnected,
    }
}

/// A message that was to be sent, and what became of it.
pub struct Attempt<T> {
    pub message: T,
    pub outcome: Delivery,
}

/// The sending end of a channel, with a record of what was sent over it. Only
/// `try_send` adds to the record.
#[verifier::reject_recursive_types(T)]
pub struct Outgoing<T> {
    sender: Sender<T>,
    attempts: Ghost<Seq<Attempt<T>>>,
}

impl<T> Outgoing<T> {
    /// The end of the channel.
    pub closed spec fn sender(self) -> Sender<T> {
        self.sender
    }

    /// All that was to be sent over this end, in order.
    pub closed spec fn attempts(self) -> Seq<Attempt<T>> {
        self.attempts@
    }

    /// An end over which nothing was sent yet.
    pub fn new(sender: Sender<T>) -> (r: Self)
        ensures
            r.sender() == sender,
            r.attempts() == Seq::<Attempt<T>>::empty(),
    {
        Outgoing { sender, attempts: Ghost(Seq::empty()) }
    }
}

impl Outgoing<MidiOutCommand> {
    /// Another sending end of the same channel, with a record of its own.
    pub(crate) fn another(&self) -> (r: Self)
        ensures
            forall|receiver: Receiver<MidiOutCommand>|
                command_link(r.sender(), receiver) == #[trigger] command_link(
                    self.sender(),
                    receiver,
                ),
            r.attempts() == Seq::<Attempt<MidiOutCommand>>::empty(),
    {
        Outgoing::new(command_sender_clone(&self.sender))
    }
}

impl Outgoing<LogMessage> {
    /// Another sending end of the same channel, with a record of its own.
    pub(crate) fn another(&self) -> (r: Self)
        ensures
            forall|receiver: Receiver<LogMessage>|
                log_link(r.sender(), receiver) == #[trigger] log_link(self.sender(), receiver),
            r.attempts() == Seq::<Attempt<LogMessage>>::empty(),
    {
        Outgoing::new(log_sender_clone(&self.sender))
    }
}

/// Whether, between two moments, one message was to be sent over an end, with
/// this outcome, and nothing else.
pub open spec fn tried<T>(
    before: Outgoing<T>,
    after: Outgoing<T>,
    message: T,
    outcome: Delivery,
) -> bool {
    &&& after.sender() == before.sender()
    &&& after.attempts() == before.attempts().push(Attempt { message, outcome })
}

/// The receiving end of a channel, with a record of what came when it was asked
/// for the next message. Only `try_receive` adds to the record.
#[verifier::reject_recursive_types(T)]
pub struct Incoming<T> {
    receiver: Receiver<T>,
    polled: Ghost<Seq<Option<T>>>,
}

impl<T> Incoming<T> {
    /// The end of the channel.
    pub closed spec fn receiver(self) -> Receiver<T> {
        self.receiver
    }

    /// What came each time that this end was asked, in order.
    pub closed spec fn polled(self) -> Seq<Option<T>> {
        self.polled@
    }

    /// An end that was not asked yet.
    pub fn new(receiver: Receiver<T>) -> (r: Self)
        ensures
            r.receiver() == receiver,
            r.polled() == Seq::<Option<T>>::empty(),
    {
        Incoming { receiver, polled: Ghost(Seq::empty()) }
    }
}

/// `crossbeam_channel::bounded` for commands: the two ends of one new channel
/// that holds at most `limit` messages.
#[verifier::external_body]
pub(crate) fn command_channel(limit: usize) -> (r: (
    Sender<MidiOutCommand>,
    Receiver<MidiOutCommand>,
))
    requires
        0 < limit <= 1000,
    ensures
        command_link(r.0, r.1) == Some(limit as nat),
{
    crossbeam_channel::bounded(limit)
}

/// `crossbeam_channel::bounded` for log messages: the two ends of one new
/// channel that holds at most `limit` messages.
#[verifier::external_body]
pub(crate) fn log_channel(limit: usize) -> (r: (Sender<LogMessage>, Receiver<LogMessage>))
    requires
        0 < limit <= 1000,
    ensures
        log_link(r.0, r.1) == Some(limit as nat),
{
    crossbeam_channel::bounded(limit)
}

/// The `clone` of `Sender` for commands: another sending end of the same
/// channel.
#[verifier::external_body]
fn command_sender_clone(sender: &Sender<MidiOutCommand>) -> (r: Sender<MidiOutCommand>)
    ensures
        forall|receiver: Receiver<MidiOutCommand>|
            command_link(r, receiver) == #[trigger] command_link(*sender, receiver),
{
    sender.clone()
}

/// The `clone` of `Sender` for log messages: another sending end of the same
/// channel.
#[verifier::external_body]
fn log_sender_clone(sender: &Sender<LogMessage>) -> (r: Sender<LogMessage>)
    ensures
        forall|receiver: Receiver<LogMessage>|
            log_link(r, receiver) == #[trigger] log_link(*sender, receiver),
{
    sender.clone()
}

/// `Sender::try_send`: the message goes into the channel, or it comes back with
/// the reason. Which of these happens depends on what other threads have sent,
/// received and dropped, so nothing is stated of it. The one call is added to
/// the record, which has no trace in compiled code.
#[verifier::external_body]
pub(crate) fn try_send<T>(end: &mut Outgoing<T>, message: T) -> (r: Result<(), SendFailure<T>>)
    ensures
        tried(*old(end), *final(end), message, delivery(r)),
        r is Err ==> r->Err_0.message() == message,
{
    match end.sender.try_send(message) {
        Ok(()) => Ok(()),
        Err(crossbeam_channel::TrySendError::Full(m)) => Err(SendFailure::Full(m)),
        Err(crossbeam_channel::TrySendError::Disconnected(m)) => Err(SendFailure::Disconnected(m)),
    }
}

/// `Receiver::try_recv`: the next message of the channel, if one is there. Which
/// message that is depends on what other threads have sent, so nothing is stated
/// of it. The one call is added to the record, which has no trace in compiled
/// code.
#[verifier::external_body]
pub(crate) fn try_receive<T>(end: &mut Incoming<T>) -> (r: Option<T>)
    ensures
        final(end).receiver() == old(end).receiver(),
        final(end).polled() == old(end).polled().push(r),
{
    end.receiver.try_recv().ok()
}

} // verus!
