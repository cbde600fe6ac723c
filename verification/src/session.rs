//! One connection's handling step: what the relay does with one inbound
//! payload, as a single atomic step under the registry's exclusion
//! discipline.
//!
//! A join attempt is arbitrated against the claimed usernames: admission
//! records the claim and defers a join notice until this connection's next
//! chat message; rejection sends the rejection notice to the requester
//! alone and deregisters it, so it does not remain silently registered.
//! Join traffic is protocol-internal: it is neither logged nor broadcast.
//! A chat payload is handed to the log sink and fanned out to every other
//! registered connection — pending notices first, then the message — and
//! the pending notices are drained. The caller performs the log append and
//! closes the transport when told to; on task exit, whatever the cause, it
//! deregisters the connection.

use vstd::prelude::*;
use crate::fanout;
use crate::protocol;
use crate::protocol::Frame;
use crate::registry::Registry;
use crate::registry::JoinOutcome;
use crate::registry::claim_taken_by_other;

verus! {

/// What one inbound payload led to: the text to hand to the log sink (chat
/// only), the record of attempted sends in order, and whether the caller
/// must now close the connection (after a rejected join).
pub struct FrameOutcome {
    pub log_entry: Option<Vec<u8>>,
    pub sends: Vec<(u64, Vec<u8>)>,
    pub close: bool,
}

/// Handles one inbound payload from the registered connection `id`.
pub fn handle_frame(
    reg: &mut Registry,
    pending: &mut Vec<Vec<u8>>,
    id: u64,
    payload: &Vec<u8>,
) -> (out: FrameOutcome)
    requires
        old(reg).wf(),
        old(reg).conn_ids().contains(id),
    ensures
        final(reg).wf(),
        ({
            let s = payload@;
            let name = protocol::join_username(s);
            if protocol::is_join_frame(s) {
                if claim_taken_by_other(old(reg).claims(), id, name) {
                    &&& out.close == true
                    &&& out.log_entry is None
                    &&& fanout::sends_view(out.sends@) == seq![(id, protocol::rejection_notice())]
                    &&& final(reg).conn_ids() == old(reg).conn_ids().filter(|c: u64| c != id)
                    &&& final(reg).claims() == old(reg).claims().filter(
                        |c: (u64, Seq<u8>)| c.0 != id,
                    )
                    &&& !final(reg).conn_ids().contains(id)
                    &&& final(pending)@ == old(pending)@
                } else {
                    &&& out.close == false
                    &&& out.log_entry is None
                    &&& out.sends@.len() == 0
                    &&& final(reg).conn_ids() == old(reg).conn_ids()
                    &&& final(reg).claims() == old(reg).claims().push((id, name))
                    &&& fanout::notices_view(final(pending)@) == fanout::notices_view(
                        old(pending)@,
                    ).push(protocol::join_notice(name))
                }
            } else {
                &&& out.close == false
                &&& out.log_entry matches Some(text) && text@ == s
                &&& fanout::sends_view(out.sends@) == fanout::broadcast_plan(
                    old(reg).conn_ids(),
                    id,
                    fanout::notices_view(old(pending)@),
                    s,
                )
                &&& *final(reg) == *old(reg)
                &&& final(pending)@.len() == 0
            }
        }),
{
    let frame = protocol::parse_frame(payload);
    match frame {
        Frame::Join { username } => {
            let outcome = reg.try_claim_username(id, &username);
            match outcome {
                JoinOutcome::Admitted => {
                    let notice = protocol::join_notice_bytes(&username);
                    pending.push(notice);
                    proof {
                        assert(fanout::notices_view(pending@) =~= fanout::notices_view(
                            old(pending)@,
                        ).push(protocol::join_notice(protocol::join_username(payload@))));
                    }
                    FrameOutcome { log_entry: None, sends: Vec::new(), close: false }
                },
                JoinOutcome::Rejected => {
                    let notice = protocol::rejection_notice_bytes();
                    let recorded = protocol::copy_bytes(&notice);
                    reg.send_to_connection(id, notice);
                    reg.deregister(id);
                    let mut sends: Vec<(u64, Vec<u8>)> = Vec::new();
                    sends.push((id, recorded));
                    proof {
                        assert(fanout::sends_view(sends@) =~= seq![
                            (id, protocol::rejection_notice()),
                        ]);
                    }
                    FrameOutcome { log_entry: None, sends, close: true }
                },
            }
        },
        Frame::Chat { text } => {
            let sends = reg.deliver(id, pending, &text);
            pending.clear();
            FrameOutcome { log_entry: Some(text), sends, close: false }
        },
    }
}

} // verus!
