//! Trusted boundary to the per-connection outbound channel.
//!
//! Every connection is reached through the sending half of an unbounded
//! in-memory channel from `futures_channel`; the receiving half is owned by
//! the task that forwards queued payloads onto the connection's transport.
//! Whether a send is accepted depends on whether that receiving half is
//! still alive, so nothing is promised of a send's result: callers state
//! which sends they attempt, not that the sends land.

use vstd::prelude::*;

verus! {

/// Declares `futures_channel`'s unbounded sender so that it can stand in
/// fields and signatures; the value is opaque to the verifier.
#[verifier::external_type_specification]
#[verifier::external_body]
#[verifier::reject_recursive_types(T)]
pub struct ExUnboundedSender<T>(futures_channel::mpsc::UnboundedSender<T>);

/// Relies on `futures_channel::mpsc::UnboundedSender::unbounded_send`:
/// queues `payload` for the receiving half and succeeds unless that half
/// has been dropped. The result depends on the receiver's state, so no
/// outcome is promised.
#[verifier::external_body]
pub(crate) fn send_payload(
    tx: &futures_channel::mpsc::UnboundedSender<Vec<u8>>,
    payload: Vec<u8>,
) -> bool {
    tx.unbounded_send(payload).is_ok()
}

/// Relies on `futures_channel::mpsc::UnboundedSender::clone`: the clone is
/// a second sending handle onto the same channel.
#[verifier::external_body]
pub(crate) fn clone_sender(
    tx: &futures_channel::mpsc::UnboundedSender<Vec<u8>>,
) -> futures_channel::mpsc::UnboundedSender<Vec<u8>> {
    tx.clone()
}

} // verus!
