//! Best-effort message delivery.
use crossbeam_channel::Sender;
use vstd::prelude::*;

verus! {

#[verifier::external_type_specification]
#[verifier::external_body]
#[verifier::reject_recursive_types(T)]
pub struct ExSender<T>(Sender<T>);

/// Relies on crossbeam_channel::Sender::send: true when the message was
/// delivered, false when every receiver is gone.
#[verifier::external_body]
fn queue_send<T>(chan: &Sender<T>, message: T) -> (r: bool) {
    chan.send(message).is_ok()
}

/// A sender of messages, whatever the transport underneath. Delivery is
/// best effort: a failure is swallowed and nothing is returned.
pub trait OpaqueSender<T> {
    /// Send a message.
    fn send(&self, message: T);
}

impl<T> OpaqueSender<T> for Sender<T> {
    fn send(&self, message: T) {
        let _delivered = queue_send(self, message);
    }
}

} // verus!
