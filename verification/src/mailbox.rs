//! The mailbox: an unbounded multi-producer/single-consumer channel carrying
//! records and a termination signal from producer threads to the delivery
//! worker. Sending never blocks and never fails visibly; delivery failure is
//! swallowed.

use vstd::prelude::*;

verus! {

use crate::worker::Message;

/// Declares `crossbeam_channel::Sender` so it can stand in fields; its
/// value is opaque here.
#[verifier::external_type_specification]
#[verifier::external_body]
#[verifier::reject_recursive_types(T)]
pub struct ExSender<T>(crossbeam_channel::Sender<T>);

/// Declares `crossbeam_channel::Receiver` so it can stand in fields; its
/// value is opaque here.
#[verifier::external_type_specification]
#[verifier::external_body]
#[verifier::reject_recursive_types(T)]
pub struct ExReceiver<T>(crossbeam_channel::Receiver<T>);

/// Outcome of a non-blocking receive.
pub enum TryRecv {
    /// One queued message.
    Item(Message),
    /// Nothing queued right now.
    Empty,
    /// Every sender handle is gone.
    Closed,
}

/// Relies on `crossbeam_channel::unbounded`: yields a connected
/// sender/receiver pair of an unbounded channel.
#[verifier::external_body]
fn channel_unbounded() -> (crossbeam_channel::Sender<Message>, crossbeam_channel::Receiver<
    Message,
>) {
    crossbeam_channel::unbounded()
}

/// Relies on `crossbeam_channel::Sender::send`: enqueues without blocking;
/// the error of a disconnected channel is discarded.
#[verifier::external_body]
fn channel_send(s: &crossbeam_channel::Sender<Message>, value: Message) {
    let _ = s.send(value);
}

/// Relies on `crossbeam_channel::Sender::clone`: another handle to the same
/// channel, safe to hand to another producer thread.
#[verifier::external_body]
fn channel_clone_sender(s: &crossbeam_channel::Sender<Message>) -> crossbeam_channel::Sender<
    Message,
> {
    s.clone()
}

/// Relies on `crossbeam_channel::Receiver::recv`: blocks until a message
/// arrives, or reports disconnection once every sender is gone.
#[verifier::external_body]
fn channel_recv(r: &crossbeam_channel::Receiver<Message>) -> Option<Message> {
    match r.recv() {
        Ok(v) => Some(v),
        Err(crossbeam_channel::RecvError) => None,
    }
}

/// Relies on `crossbeam_channel::Receiver::try_recv`: never blocks; reports a
/// message, an empty queue, or a disconnected channel.
#[verifier::external_body]
fn channel_try_recv(r: &crossbeam_channel::Receiver<Message>) -> TryRecv {
    match r.try_recv() {
        Ok(v) => TryRecv::Item(v),
        Err(crossbeam_channel::TryRecvError::Empty) => TryRecv::Empty,
        Err(crossbeam_channel::TryRecvError::Disconnected) => TryRecv::Closed,
    }
}

/// A producer handle to the mailbox. Cloning is cheap; arbitrarily many
/// producer threads may hold one.
pub struct MailboxSender {
    inner: crossbeam_channel::Sender<Message>,
}

/// The worker's receiving end of the mailbox.
pub struct MailboxReceiver {
    inner: crossbeam_channel::Receiver<Message>,
}

/// Creates the mailbox.
pub fn mailbox() -> (MailboxSender, MailboxReceiver) {
    let (s, r) = channel_unbounded();
    (MailboxSender { inner: s }, MailboxReceiver { inner: r })
}

impl MailboxSender {
    /// Enqueues a message; never blocks, never reports failure.
    pub fn send(&self, value: Message) {
        channel_send(&self.inner, value);
    }

    /// Another handle to the same mailbox.
    pub fn duplicate(&self) -> MailboxSender {
        MailboxSender { inner: channel_clone_sender(&self.inner) }
    }
}

impl MailboxReceiver {
    /// Waits for the next message; reports nothing once all senders are gone.
    pub fn recv(&self) -> Option<Message> {
        channel_recv(&self.inner)
    }

    /// Takes a message only if one is already queued.
    pub fn try_recv(&self) -> TryRecv {
        channel_try_recv(&self.inner)
    }
}

} // verus!
