//! The in-process channels that join the client to the tasks of a connection.

use vstd::prelude::*;
use std::sync::mpsc::{Receiver, Sender};
use crate::command::Lcommand;

verus! {

/// `std::sync::mpsc::Sender`: the sending half of a channel, carried as an
/// opaque value.
#[verifier::external_type_specification]
#[verifier::external_body]
#[verifier::reject_recursive_types(T)]
pub struct ExSender<T>(Sender<T>);

/// `std::sync::mpsc::Receiver`: the receiving half of a channel, carried as
/// an opaque value.
#[verifier::external_type_specification]
#[verifier::external_body]
#[verifier::reject_recursive_types(T)]
pub struct ExReceiver<T>(Receiver<T>);

/// What a look at the inbound channel found.
#[derive(Debug)]
pub enum Inbound {
    /// A command that the peer sent.
    Message(Lcommand),
    /// Nothing has arrived, and the channel is still open.
    Idle,
    /// The channel was closed: the connection is lost.
    Closed,
}

/// `Sender::send`: queues a command, and tells whether the channel took it.
/// It takes none once the receiving half is gone; nothing is claimed of
/// which answer comes.
#[verifier::external_body]
pub(crate) fn push_outbound(outbound: &Sender<Lcommand>, cmd: Lcommand) -> (delivered: bool) {
    outbound.send(cmd).is_ok()
}

/// `Receiver::try_recv`: takes the next queued command without blocking.
/// Nothing is claimed of which answer comes.
#[verifier::external_body]
pub(crate) fn poll_inbound(inbound: &Receiver<Lcommand>) -> (event: Inbound) {
    match inbound.try_recv() {
        Ok(cmd) => Inbound::Message(cmd),
        Err(std::sync::mpsc::TryRecvError::Empty) => Inbound::Idle,
        Err(std::sync::mpsc::TryRecvError::Disconnected) => Inbound::Closed,
    }
}

} // verus!
