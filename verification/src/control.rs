//! The control channels between network workers and the mixing context.
//!
//! Two bounded queues are the only state shared across threads: ingress
//! carries connection events into the real-time mixing context, egress
//! carries the one `AssignedBus` notification per connection back out. The
//! queues are `crossbeam_channel` queues behind trusted wrappers; everything
//! the mixing context decides from a received message is verified.

use vstd::prelude::*;

use crate::registry::BusRegistry;

verus! {

/// A lifecycle or data event sent by a connection's network worker to the
/// mixing context. Events of one connection arrive in send order.
pub enum ClientUpdate {
    /// One framed binary payload: a compressed audio frame to decode.
    NewBuffer { connection_id: u32, buffer: Vec<u8> },
    /// The connection is gone; its buffer is to be reclaimed.
    Closed { connection_id: u32 },
}

/// The notification sent back to a connection's worker after its first
/// decoded frame: which output bus the connection was assigned to.
pub struct MsgToClient {
    /// The connection the notification is addressed to.
    pub id: u32,
    /// The output bus its stream now feeds.
    pub bus_index: usize,
}

/// One non-blocking look at the ingress queue.
pub enum Polled {
    /// A queued event.
    Got(ClientUpdate),
    /// Nothing queued right now.
    Empty,
    /// Every sender is gone; the mixing context is to shut down.
    Closed,
}

#[verifier::external_type_specification]
#[verifier::external_body]
#[verifier::reject_recursive_types(T)]
pub struct ExReceiver<T>(crossbeam_channel::Receiver<T>);

#[verifier::external_type_specification]
#[verifier::external_body]
#[verifier::reject_recursive_types(T)]
pub struct ExSender<T>(crossbeam_channel::Sender<T>);

/// Relies on `crossbeam_channel::Receiver::try_recv`: returns a queued
/// message without blocking, or reports the queue empty or disconnected.
/// What comes back depends on the other threads, so nothing is stated
/// beyond the shape of the answer; the caller handles every outcome.
#[verifier::external_body]
pub(crate) fn poll_ingress(rx: &crossbeam_channel::Receiver<ClientUpdate>) -> Polled {
    match rx.try_recv() {
        Ok(update) => Polled::Got(update),
        Err(crossbeam_channel::TryRecvError::Empty) => Polled::Empty,
        Err(crossbeam_channel::TryRecvError::Disconnected) => Polled::Closed,
    }
}

/// Relies on `crossbeam_channel::Sender::send`: delivers the message once
/// the bounded queue has room, and fails exactly when every receiver is
/// gone. Returns whether the message was accepted.
#[verifier::external_body]
pub(crate) fn send_notification(
    tx: &crossbeam_channel::Sender<MsgToClient>,
    msg: MsgToClient,
) -> bool {
    tx.send(msg).is_ok()
}

/// One callback period's control work: drains the ingress queue without
/// blocking, routing each `NewBuffer` payload and reclaiming each `Closed`
/// connection, and sends one `AssignedBus` notification for every buffer it
/// creates. The work is bounded: at most `max_events` events are handled in
/// one call (the caller passes the ingress queue's capacity, which caps what
/// can be waiting). Returns `false` when either channel's counterpart is
/// gone, which shuts the mixing context down; the registry stays well-formed
/// either way.
pub fn drain_ingress(
    reg: &mut BusRegistry,
    rx: &crossbeam_channel::Receiver<ClientUpdate>,
    tx: &crossbeam_channel::Sender<MsgToClient>,
    max_events: usize,
) -> (alive: bool)
    requires
        old(reg).wf(),
        old(reg).buses@.len() > 0,
    ensures
        final(reg).wf(),
        final(reg)@.len() == old(reg)@.len(),
        final(reg).warmup_depth == old(reg).warmup_depth,
{
    let mut budget: usize = max_events;
    while budget > 0
        invariant
            reg.wf(),
            reg.buses@.len() > 0,
            reg@.len() == old(reg)@.len(),
            reg.warmup_depth == old(reg).warmup_depth,
        decreases budget,
    {
        budget = budget - 1;
        match poll_ingress(rx) {
            Polled::Got(update) => match update {
                ClientUpdate::NewBuffer { connection_id, buffer } => {
                    if let Some(bus_index) = reg.route_payload(connection_id, buffer) {
                        let delivered = send_notification(
                            tx,
                            MsgToClient { id: connection_id, bus_index },
                        );
                        if !delivered {
                            return false;
                        }
                    }
                },
                ClientUpdate::Closed { connection_id } => {
                    reg.remove_conn(connection_id);
                },
            },
            Polled::Empty => {
                return true;
            },
            Polled::Closed => {
                return false;
            },
        }
    }
    true
}

} // verus!
