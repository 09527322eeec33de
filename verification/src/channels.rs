//! Trusted declarations for the outbound/inbound channels the engine uses.
//!
//! The engine talks to its neighbors and to the controlling authority over
//! `crossbeam_channel` channels.  The channel types are opaque to the
//! verifier; the wrappers below carry the calls.  Nothing is promised about
//! a send or a receive: whether a message is accepted or available depends
//! on the other endpoint, so every caller handles both outcomes.

use vstd::prelude::*;

verus! {

/// Declares `crossbeam_channel::Sender` so that it can stand in fields and
/// signatures; its values are opaque.
#[verifier::external_type_specification]
#[verifier::external_body]
#[verifier::reject_recursive_types(T)]
pub struct ExSender<T>(crossbeam_channel::Sender<T>);

/// Declares `crossbeam_channel::Receiver` so that it can stand in fields and
/// signatures; its values are opaque.
#[verifier::external_type_specification]
#[verifier::external_body]
#[verifier::reject_recursive_types(T)]
pub struct ExReceiver<T>(crossbeam_channel::Receiver<T>);

/// Relies on `crossbeam_channel::Sender::send`: hands one value to the
/// channel; `true` means the channel accepted it, `false` that every
/// receiver is gone.  The outcome depends on the other endpoint, so nothing
/// is promised about it.
#[verifier::external_body]
pub(crate) fn chan_send<T>(s: &crossbeam_channel::Sender<T>, v: T) -> bool {
    s.send(v).is_ok()
}

/// Relies on `crossbeam_channel::Receiver::try_recv`: a non-blocking poll
/// that returns an available value or nothing (empty or disconnected).
/// What arrives depends on the other endpoint, so nothing is promised about
/// the result.
#[verifier::external_body]
pub(crate) fn chan_try_recv<T>(r: &crossbeam_channel::Receiver<T>) -> Option<T> {
    match r.try_recv() {
        Ok(v) => Some(v),
        Err(_) => None,
    }
}

/// Relies on `crossbeam_channel::Sender::clone`: a second handle to the same
/// channel.  The handle is opaque, so nothing is stated about the value.
#[verifier::external_body]
pub(crate) fn chan_clone_sender<T>(s: &crossbeam_channel::Sender<T>) -> crossbeam_channel::Sender<
    T,
> {
    s.clone()
}

} // verus!
