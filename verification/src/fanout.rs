//! The broadcaster's delivery plan, and the laws that hold of it.
//!
//! Delivering one chat message is described by a *plan*: the ordered record
//! of (recipient id, payload) sends the broadcaster attempts. For every
//! registered connection other than the sender it sends each pending system
//! notice, then the message itself; the sender receives nothing. The
//! projection [`sends_to`] gives the payloads one recipient observes, in
//! order, and the proof functions below state the delivery guarantees over
//! it.

use vstd::prelude::*;

verus! {

/// The views of a vector of payloads.
pub open spec fn notices_view(v: Seq<Vec<u8>>) -> Seq<Seq<u8>> {
    v.map_values(|n: Vec<u8>| n@)
}

/// The views of a recorded send list.
pub open spec fn sends_view(v: Seq<(u64, Vec<u8>)>) -> Seq<(u64, Seq<u8>)> {
    v.map_values(|p: (u64, Vec<u8>)| (p.0, p.1@))
}

/// What one recipient is sent for one delivery: every pending notice, in
/// order, then the message.
pub open spec fn recipient_burst(id: u64, notices: Seq<Seq<u8>>, msg: Seq<u8>) -> Seq<
    (u64, Seq<u8>),
> {
    notices.map_values(|n: Seq<u8>| (id, n)).push((id, msg))
}

/// The full delivery plan for one message from `sender` while `ids` are
/// registered: one burst per id other than the sender, in registry order.
pub open spec fn broadcast_plan(
    ids: Seq<u64>,
    sender: u64,
    notices: Seq<Seq<u8>>,
    msg: Seq<u8>,
) -> Seq<(u64, Seq<u8>)>
    decreases ids.len(),
{
    if ids.len() == 0 {
        Seq::empty()
    } else {
        broadcast_plan(ids.drop_last(), sender, notices, msg) + (if ids.last() == sender {
            Seq::empty()
        } else {
            recipient_burst(ids.last(), notices, msg)
        })
    }
}

/// The payloads that `id` observes out of a plan, in plan order.
pub open spec fn sends_to(plan: Seq<(u64, Seq<u8>)>, id: u64) -> Seq<Seq<u8>>
    decreases plan.len(),
{
    if plan.len() == 0 {
        Seq::empty()
    } else {
        sends_to(plan.drop_last(), id) + (if plan.last().0 == id {
            seq![plan.last().1]
        } else {
            Seq::<Seq<u8>>::empty()
        })
    }
}

/// A recipient observes consecutive plans in order.
proof fn lemma_sends_to_distributes(a: Seq<(u64, Seq<u8>)>, b: Seq<(u64, Seq<u8>)>, id: u64)
    ensures
        sends_to(a + b, id) == sends_to(a, id) + sends_to(b, id),
    decreases b.len(),
{
    if b.len() == 0 {
        assert(a + b =~= a);
        assert(sends_to(a, id) + sends_to(b, id) =~= sends_to(a, id));
    } else {
        assert((a + b).drop_last() =~= a + b.drop_last());
        lemma_sends_to_distributes(a, b.drop_last(), id);
        assert((a + b).last() == b.last());
        assert(sends_to(a + b, id) =~= sends_to(a, id) + sends_to(b, id));
    }
}

/// Out of a plan addressed entirely to `id`, `id` observes every payload
/// and anyone else observes nothing.
proof fn lemma_sends_to_uniform(s: Seq<(u64, Seq<u8>)>, id: u64, to: u64)
    requires
        forall|j: int| 0 <= j < s.len() ==> (#[trigger] s[j]).0 == id,
    ensures
        sends_to(s, to) == if to == id {
            s.map_values(|p: (u64, Seq<u8>)| p.1)
        } else {
            Seq::<Seq<u8>>::empty()
        },
    decreases s.len(),
{
    let f = |p: (u64, Seq<u8>)| p.1;
    if s.len() == 0 {
        assert(s.map_values(f) =~= Seq::<Seq<u8>>::empty());
    } else {
        let rest = s.drop_last();
        lemma_sends_to_uniform(rest, id, to);
        if to == id {
            assert(rest.map_values(f) =~= s.map_values(f).drop_last());
            assert(sends_to(s, to) =~= s.map_values(f));
        } else {
            assert(sends_to(s, to) =~= Seq::<Seq<u8>>::empty());
        }
    }
}

/// One burst shows `id` the notices then the message, and anyone else
/// nothing.
proof fn lemma_sends_to_burst(id: u64, notices: Seq<Seq<u8>>, msg: Seq<u8>, to: u64)
    ensures
        sends_to(recipient_burst(id, notices, msg), to) == if to == id {
            notices.push(msg)
        } else {
            Seq::<Seq<u8>>::empty()
        },
{
    let s = recipient_burst(id, notices, msg);
    let tag = |n: Seq<u8>| (id, n);
    assert(forall|j: int| 0 <= j < s.len() ==> (#[trigger] s[j]).0 == id) by {
        assert(forall|j: int|
            0 <= j < notices.len() ==> (#[trigger] notices.map_values(tag)[j]).0 == id);
    }
    lemma_sends_to_uniform(s, id, to);
    if to == id {
        assert(s.map_values(|p: (u64, Seq<u8>)| p.1) =~= notices.push(msg));
    }
}

/// A plan for ids that do not include `r` shows `r` nothing.
proof fn lemma_sends_to_unregistered(
    ids: Seq<u64>,
    sender: u64,
    notices: Seq<Seq<u8>>,
    msg: Seq<u8>,
    r: u64,
)
    requires
        !ids.contains(r),
    ensures
        sends_to(broadcast_plan(ids, sender, notices, msg), r) == Seq::<Seq<u8>>::empty(),
    decreases ids.len(),
{
    if ids.len() == 0 {
    } else {
        let rest = ids.drop_last();
        assert(!rest.contains(r)) by {
            if rest.contains(r) {
                let t = choose|t: int| 0 <= t < rest.len() && rest[t] == r;
                assert(ids[t] == r);
            }
        }
        lemma_sends_to_unregistered(rest, sender, notices, msg, r);
        lemma_sends_to_distributes(
            broadcast_plan(rest, sender, notices, msg),
            if ids.last() == sender {
                Seq::empty()
            } else {
                recipient_burst(ids.last(), notices, msg)
            },
            r,
        );
        assert(ids.last() != r) by {
            assert(ids[ids.len() - 1] == ids.last());
        }
        if ids.last() != sender {
            lemma_sends_to_burst(ids.last(), notices, msg, r);
        }
        assert(sends_to(broadcast_plan(ids, sender, notices, msg), r)
            =~= Seq::<Seq<u8>>::empty());
    }
}

/// Fan-out completeness: when `ids` are registered (pairwise distinct) and
/// one of them sends a message, every other registered connection `r`
/// observes exactly the pending notices, in order, followed by exactly one
/// copy of the message.
pub proof fn lemma_fan_out_completeness(
    ids: Seq<u64>,
    sender: u64,
    notices: Seq<Seq<u8>>,
    msg: Seq<u8>,
    r: u64,
)
    requires
        ids.no_duplicates(),
        ids.contains(r),
        r != sender,
    ensures
        sends_to(broadcast_plan(ids, sender, notices, msg), r) == notices.push(msg),
    decreases ids.len(),
{
    let rest = ids.drop_last();
    assert(rest.no_duplicates()) by {
        assert(forall|a: int, b: int|
            0 <= a < rest.len() && 0 <= b < rest.len() && a != b ==> ids[a] != ids[b]);
    }
    lemma_sends_to_distributes(
        broadcast_plan(rest, sender, notices, msg),
        if ids.last() == sender {
            Seq::empty()
        } else {
            recipient_burst(ids.last(), notices, msg)
        },
        r,
    );
    if ids.last() == r {
        assert(!rest.contains(r)) by {
            if rest.contains(r) {
                let t = choose|t: int| 0 <= t < rest.len() && rest[t] == r;
                assert(ids[t] == ids[ids.len() - 1]);
            }
        }
        lemma_sends_to_unregistered(rest, sender, notices, msg, r);
        lemma_sends_to_burst(r, notices, msg, r);
        assert(sends_to(broadcast_plan(ids, sender, notices, msg), r) =~= notices.push(msg));
    } else {
        assert(rest.contains(r)) by {
            let t = choose|t: int| 0 <= t < ids.len() && ids[t] == r;
            assert(t < rest.len() && rest[t] == r);
        }
        lemma_fan_out_completeness(rest, sender, notices, msg, r);
        if ids.last() != sender {
            lemma_sends_to_burst(ids.last(), notices, msg, r);
        }
        assert(sends_to(broadcast_plan(ids, sender, notices, msg), r) =~= notices.push(msg));
    }
}

/// Self-exclusion: a sender never observes its own broadcast; the plan for
/// its message shows it nothing at all.
pub proof fn lemma_self_exclusion(ids: Seq<u64>, sender: u64, notices: Seq<Seq<u8>>, msg: Seq<u8>)
    ensures
        sends_to(broadcast_plan(ids, sender, notices, msg), sender) == Seq::<Seq<u8>>::empty(),
    decreases ids.len(),
{
    if ids.len() == 0 {
    } else {
        let rest = ids.drop_last();
        lemma_self_exclusion(rest, sender, notices, msg);
        lemma_sends_to_distributes(
            broadcast_plan(rest, sender, notices, msg),
            if ids.last() == sender {
                Seq::empty()
            } else {
                recipient_burst(ids.last(), notices, msg)
            },
            sender,
        );
        if ids.last() != sender {
            lemma_sends_to_burst(ids.last(), notices, msg, sender);
        }
        assert(sends_to(broadcast_plan(ids, sender, notices, msg), sender)
            =~= Seq::<Seq<u8>>::empty());
    }
}

/// FIFO per sender: across two consecutive deliveries from the same sender,
/// a recipient registered for both observes the first delivery's payloads —
/// ending in the first message — strictly before the second's, so the two
/// messages arrive in the order they were sent.
pub proof fn lemma_fifo_per_sender(
    ids1: Seq<u64>,
    ids2: Seq<u64>,
    sender: u64,
    notices1: Seq<Seq<u8>>,
    msg1: Seq<u8>,
    notices2: Seq<Seq<u8>>,
    msg2: Seq<u8>,
    r: u64,
)
    requires
        r != sender,
        ids1.no_duplicates(),
        ids2.no_duplicates(),
        ids1.contains(r),
        ids2.contains(r),
    ensures
        sends_to(
            broadcast_plan(ids1, sender, notices1, msg1) + broadcast_plan(
                ids2,
                sender,
                notices2,
                msg2,
            ),
            r,
        ) == notices1.push(msg1) + notices2.push(msg2),
        sends_to(
            broadcast_plan(ids1, sender, notices1, msg1) + broadcast_plan(
                ids2,
                sender,
                notices2,
                msg2,
            ),
            r,
        )[notices1.len() as int] == msg1,
        sends_to(
            broadcast_plan(ids1, sender, notices1, msg1) + broadcast_plan(
                ids2,
                sender,
                notices2,
                msg2,
            ),
            r,
        )[(notices1.len() + 1 + notices2.len()) as int] == msg2,
{
    lemma_sends_to_distributes(
        broadcast_plan(ids1, sender, notices1, msg1),
        broadcast_plan(ids2, sender, notices2, msg2),
        r,
    );
    lemma_fan_out_completeness(ids1, sender, notices1, msg1, r);
    lemma_fan_out_completeness(ids2, sender, notices2, msg2, r);
    assert((notices1.push(msg1) + notices2.push(msg2))[notices1.len() as int] == msg1);
    assert((notices1.push(msg1) + notices2.push(msg2))[(notices1.len() + 1
        + notices2.len()) as int] == msg2);
}

} // verus!
